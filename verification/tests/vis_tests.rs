use bava::mesh::MeshIndices;
use bava::vis::{
    columns_active, fold_symmetric_indices, mirror_layout, oldest_to_evict, physics_supported, profile_index, reconcile_pool,
    resample_index, split_slot, Direction, DrawingMode, MirrorMode, PoolChange, VisFamily, VisShape, MODE_COUNT,
};

#[test]
fn drawing_mode_all_is_complete_and_unique() {
    let all = DrawingMode::all();
    assert_eq!(all.len(), 11);
    for (i, a) in all.iter().enumerate() {
        for b in &all[i + 1..] {
            assert_ne!(a, b, "duplicate mode {a:?}");
        }
    }
    let splitters = all.iter().filter(|m| m.shape() == VisShape::Splitter).count();
    assert_eq!(splitters, 1);
}

#[test]
fn drawing_mode_next_cycles_and_wraps() {
    let all = DrawingMode::all();
    let mut m = all[0];
    let mut seen = vec![m];
    for _ in 0..all.len() - 1 {
        m = m.next();
        seen.push(m);
    }
    assert_eq!(seen, all);
    assert_eq!(all[10].next(), all[0]);
}

#[test]
fn drawing_mode_shape_and_family_mapping() {
    assert_eq!(DrawingMode::WaveBox.shape(), VisShape::Wave);
    assert_eq!(DrawingMode::WaveBox.family(), VisFamily::Box);
    assert_eq!(DrawingMode::BarsCircle.shape(), VisShape::Bars);
    assert_eq!(DrawingMode::BarsCircle.family(), VisFamily::Circle);
    for m in DrawingMode::all() {
        assert_eq!(m.family() == VisFamily::Box, format!("{m:?}").ends_with("Box"));
    }
    assert_eq!(MODE_COUNT, 11);
}

#[test]
fn vis_settings_profile_clamps_index_and_handles_empty() {
    assert_eq!(profile_index(99, 2), Some(1));
    assert_eq!(profile_index(99, 0), None);
    assert_eq!(profile_index(0, 2), Some(0));
}

#[test]
fn fold_symmetric_is_mirror_symmetric() {
    let empty: Vec<f32> = Vec::new();
    assert_eq!(mirror_layout(&empty, &empty, &empty, 0.0, MirrorMode::Full, false, false, 4), vec![0.0; 4]);
    let src = [1.0f32, 0.6, 0.2];
    let idx = fold_symmetric_indices(src.len(), 8, false);
    let out: Vec<f32> = idx.iter().map(|&i| src[i]).collect();
    assert_eq!(out.len(), 8);
    for i in 0..out.len() {
        assert!((out[i] - out[out.len() - 1 - i]).abs() < 1e-6, "not symmetric at {i}: {out:?}");
    }
    assert_eq!(idx, vec![2, 1, 0, 0, 0, 0, 1, 2]);
    assert_eq!(fold_symmetric_indices(3, 8, true), vec![0, 1, 2, 2, 2, 2, 1, 0]);
}

#[test]
fn resample_endpoints_and_empty() {
    let src = [10.0f32, 20.0, 30.0];
    assert_eq!(src[resample_index(src.len(), 0, 4)], 10.0);
    assert_eq!(src[resample_index(src.len(), 3, 4)], 30.0);
    assert_eq!(resample_index(3, 1, 4), 0);
    assert_eq!(resample_index(3, 2, 1), 2);
}

#[test]
fn split_slots_mirror_each_channel_from_the_center() {
    assert_eq!(split_slot(0, 5), (true, 2, 3));
    assert_eq!(split_slot(2, 5), (true, 0, 3));
    assert_eq!(split_slot(3, 5), (false, 0, 2));
    assert_eq!(split_slot(4, 5), (false, 1, 2));
}

#[test]
fn physics_runs_only_in_modes_with_a_surface() {
    assert!(columns_active(DrawingMode::BarsBox, MirrorMode::Off, Direction::BottomTop));
    assert!(!columns_active(DrawingMode::BarsBox, MirrorMode::Full, Direction::BottomTop));
    assert!(!columns_active(DrawingMode::BarsCircle, MirrorMode::Off, Direction::BottomTop));
    assert!(physics_supported(DrawingMode::WaveCircle, MirrorMode::Full, Direction::LeftRight));
    assert!(physics_supported(DrawingMode::WaveBox, MirrorMode::Full, Direction::BottomTop));
    assert!(!physics_supported(DrawingMode::SpineBox, MirrorMode::Off, Direction::BottomTop));
}

#[test]
fn pools_grow_and_shrink_to_the_bar_count() {
    assert_eq!(reconcile_pool(3, 5), PoolChange::Spawn { from: 3, to: 5 });
    assert_eq!(reconcile_pool(5, 3), PoolChange::DespawnFrom { keep: 3 });
    assert_eq!(reconcile_pool(1, 0), PoolChange::Keep);
    assert_eq!(reconcile_pool(0, 0), PoolChange::Spawn { from: 0, to: 1 });
}

#[test]
fn oldest_balls_are_evicted_first() {
    let mut ev = oldest_to_evict(&vec![7, 3, 9, 1], 2);
    ev.sort();
    assert_eq!(ev, vec![1, 3]);
    assert!(oldest_to_evict(&vec![7, 3], 2).is_empty());
}

#[test]
fn open_stroke_vertex_and_index_counts() {
    let mut m = MeshIndices::new();
    m.push_stroke(2, false);
    assert_eq!((m.vertices(), m.len()), (2 * 4, 1 * 3 * 6));
}

#[test]
fn closed_stroke_adds_a_wrap_segment() {
    let mut m = MeshIndices::new();
    m.push_stroke(3, true);
    assert_eq!((m.vertices(), m.len()), (3 * 4, 3 * 3 * 6));
    assert!(m.to_vec().iter().all(|&i| (i as usize) < m.vertices()));
}

#[test]
fn batching_n_rects_concatenates_geometry_and_offsets_indices() {
    let corner_segs = 4;
    let nb = 4 * (corner_segs + 1);
    let per_rect_verts = 1 + nb * 2;
    let per_rect_indices = nb * 9;
    let mut m = MeshIndices::new();
    for _ in 0..5 {
        m.push_fan(nb);
    }
    assert_eq!(m.vertices(), 5 * per_rect_verts);
    assert_eq!(m.len(), 5 * per_rect_indices);
    let max = *m.to_vec().iter().max().unwrap() as usize;
    assert_eq!(max, 5 * per_rect_verts - 1);
}

#[test]
fn clear_keeps_capacity_so_steady_state_frames_do_not_grow_buffers() {
    let mut m = MeshIndices::new();
    for _ in 0..8 {
        m.push_fan(20);
    }
    assert!(!m.is_empty());
    m.clear();
    assert!(m.is_empty());
    assert_eq!(m.vertices(), 0);
}

#[test]
fn mirror_values_full_is_symmetric() {
    let mono = vec![1.0f32, 0.5, 0.1];
    let out = mirror_layout(&mono, &mono, &vec![], 0.0, MirrorMode::Full, false, false, 8);
    assert_eq!(out.len(), 8);
    for i in 0..out.len() {
        assert!((out[i] - out[out.len() - 1 - i]).abs() < 1e-6, "asymmetry at {i}");
    }
}

#[test]
fn mirror_off_keeps_the_spectrum_and_reverse_order_flips_it() {
    let mono = vec![0.0f32, 1.0, 0.0, 0.5];
    let got = mirror_layout(&mono, &mono, &vec![], 0.0, MirrorMode::Off, false, false, 4);
    assert_eq!(got, mono);
    let mut rev = mirror_layout(&mono, &mono, &vec![], 0.0, MirrorMode::Off, false, true, 4);
    rev.reverse();
    assert_eq!(rev, got);
}

#[test]
fn split_channels_put_one_channel_per_side() {
    let left = vec![1u8, 2, 3];
    let right = vec![7u8, 8, 9];
    let out = mirror_layout(&vec![], &left, &right, 0, MirrorMode::SplitChannels, false, false, 6);
    assert_eq!(out, vec![3, 2, 1, 7, 8, 9]);
    let swapped = mirror_layout(&vec![], &left, &right, 0, MirrorMode::SplitChannels, true, false, 6);
    assert_eq!(swapped, vec![9, 8, 7, 1, 2, 3]);
    let mono_src = mirror_layout(&vec![], &left, &vec![], 0, MirrorMode::SplitChannels, false, false, 4);
    assert_eq!(mono_src, vec![3, 1, 1, 3]);
    assert_eq!(mirror_layout(&Vec::<u8>::new(), &vec![], &vec![], 0, MirrorMode::Full, false, false, 3), vec![0, 0, 0]);
}

#[test]
fn fold_is_symmetric_for_odd_widths_too() {
    assert_eq!(fold_symmetric_indices(3, 3, false), vec![2, 0, 2]);
    assert_eq!(fold_symmetric_indices(3, 5, false), vec![2, 1, 0, 1, 2]);
    assert_eq!(fold_symmetric_indices(3, 5, true), vec![0, 1, 2, 1, 0]);
    assert_eq!(fold_symmetric_indices(4, 1, false), vec![0]);
}

#[test]
fn stroke_too_short_yields_degenerate_tri() {
    // Fewer than two points: one degenerate triangle, never a zero-vertex mesh.
    let m = MeshIndices::for_stroke(0, false);
    assert_eq!((m.vertices(), m.len()), (3, 3), "empty stroke mesh is a degenerate tri");
    assert_eq!(m.to_vec(), vec![0, 1, 2]);
    let m = MeshIndices::for_stroke(1, false);
    assert_eq!((m.vertices(), m.len()), (3, 3), "a single point can't form a stroke");
    let m = MeshIndices::for_stroke(2, false);
    assert_eq!((m.vertices(), m.len()), (8, 18));
    let m = MeshIndices::for_stroke(3, true);
    assert_eq!((m.vertices(), m.len()), (12, 54));
}

#[test]
fn too_few_points_add_nothing_to_a_batch() {
    let mut m = MeshIndices::new();
    m.push_fan(4);
    let before = (m.vertices(), m.len());
    m.push_stroke(1, true);
    m.push_stroke(0, false);
    m.push_fan(2);
    assert_eq!((m.vertices(), m.len()), before);
}
