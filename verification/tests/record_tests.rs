use bava::record::{
    analysis_channels, drive_step, frame_payload_len, outcome_code, outcome_of, pcm_frames, pcm_target, total_frames,
    validate_video, EncoderStatus, RecordAction, RecordPlan, RecordState, ShortFrame, Tag, TagKey, TagScratch,
    VideoSpecError,
};

#[test]
fn pcm_cursor_covers_everything_without_drift() {
    for (rate, fps) in [(44_100u32, 60u32), (44_100, 30), (48_000, 24), (44_100, 24), (22_050, 60)] {
        let total = rate as usize * 3 + 217;
        let ideal = rate as f64 / fps as f64;
        let mut cursor = 0usize;
        let mut frame = 0u64;
        while cursor < total {
            frame += 1;
            let next = pcm_target(frame, rate, fps, total);
            assert!(next >= cursor, "cursor went backwards at {rate}/{fps}");
            let chunk = next - cursor;
            if next < total {
                assert!(
                    (chunk as f64 - ideal).abs() <= 1.0,
                    "uneven chunk {chunk} (ideal {ideal}) at {rate}/{fps} frame {frame}"
                );
            }
            cursor = next;
        }
        assert_eq!(cursor, total, "did not land exactly on total at {rate}/{fps}");
        let expected = (total as u64 * fps as u64).div_ceil(rate as u64);
        assert_eq!(frame, expected, "frame count mismatch at {rate}/{fps}");
        assert_eq!(total_frames(total, fps, rate), expected);
    }
}

#[test]
fn pcm_target_clamps_and_survives_zero_fps() {
    assert_eq!(pcm_target(1_000_000, 44_100, 60, 500), 500);
    assert_eq!(pcm_target(10, 44_100, 0, usize::MAX), 441_000);
}

#[test]
fn total_frames_rounds_up_and_survives_zero_rate() {
    assert_eq!(total_frames(44_101, 60, 44_100), 61);
    assert_eq!(total_frames(44_100, 60, 44_100), 60);
    assert_eq!(total_frames(0, 60, 44_100), 0);
    assert_eq!(total_frames(3, 2, 0), 6);
}

fn padded(w: u32, h: u32, extra_rows: u32) -> Vec<u8> {
    let row = w as usize * 4;
    let mut data = vec![0xABu8; row * h as usize];
    data.extend(std::iter::repeat_n(0u8, row * extra_rows as usize));
    data
}

#[test]
fn trailing_readback_padding_is_stripped() {
    let data = padded(960, 540, 36);
    let len = frame_payload_len(960, 540, data.len()).unwrap();
    let out = &data[..len];
    assert_eq!(out.len(), 960 * 540 * 4);
    assert!(out.iter().all(|&b| b == 0xAB), "kept only real frame rows");
}

#[test]
fn an_exact_buffer_is_passed_through() {
    let data = padded(1280, 720, 0);
    assert_eq!(frame_payload_len(1280, 720, data.len()).unwrap(), 1280 * 720 * 4);
}

#[test]
fn a_short_buffer_is_an_error_not_a_truncated_frame() {
    let mut data = padded(64, 64, 0);
    data.truncate(64 * 63 * 4);
    assert!(frame_payload_len(64, 64, data.len()).is_err());
    assert_eq!(
        frame_payload_len(64, 64, data.len()),
        Err(ShortFrame { len: 64 * 63 * 4, needed: 64 * 64 * 4 })
    );
}

#[test]
fn video_size_is_rounded_to_even_and_fps_checked() {
    let v = validate_video(1921, 1080, 60).unwrap();
    assert_eq!((v.width, v.height, v.rounded), (1920, 1080, true));
    let v = validate_video(1920, 1080, 60).unwrap();
    assert!(!v.rounded);
    assert_eq!(validate_video(1, 1080, 60), Err(VideoSpecError::InvalidSize { width: 1, height: 1080 }));
    assert_eq!(validate_video(640, 480, 0), Err(VideoSpecError::FpsOutOfRange { fps: 0 }));
    assert_eq!(validate_video(640, 480, 241), Err(VideoSpecError::FpsOutOfRange { fps: 241 }));
}

#[test]
fn encoder_status_reports_the_first_outcome() {
    let s = EncoderStatus::new();
    assert_eq!(s.finished(), None);
    s.record(true);
    assert_eq!(s.finished(), Some(true));
    s.settle(false);
    assert_eq!(s.finished(), Some(true));
    let f = EncoderStatus::new();
    f.settle(false);
    assert_eq!(f.finished(), Some(false));
    assert_eq!(outcome_of(outcome_code(true)), Some(true));
    assert_eq!(outcome_of(outcome_code(false)), Some(false));
    assert_eq!(outcome_of(0), None);
}

#[test]
fn drive_steps_warm_up_feed_and_finish() {
    let plan = RecordPlan { total_pcm: 100, rate: 100, fps: 2, channels: 2 };
    let mut s = RecordState::new();
    assert_eq!(drive_step(&mut s, &plan, None, true), RecordAction::WarmUp);
    assert_eq!(
        drive_step(&mut s, &plan, None, true),
        RecordAction::Feed { start_capture: true, first_sample: 0, end_sample: 100 }
    );
    assert_eq!(
        drive_step(&mut s, &plan, None, false),
        RecordAction::Feed { start_capture: false, first_sample: 100, end_sample: 200 }
    );
    assert_eq!(drive_step(&mut s, &plan, None, false), RecordAction::StopCapture);
    assert_eq!(drive_step(&mut s, &plan, None, false), RecordAction::AwaitEncoder);
    assert_eq!(drive_step(&mut s, &plan, Some(true), false), RecordAction::Finished);
}

#[test]
fn drive_step_aborts_when_the_encoder_dies_early() {
    let plan = RecordPlan { total_pcm: 100, rate: 100, fps: 2, channels: 1 };
    let mut s = RecordState::new();
    drive_step(&mut s, &plan, None, true);
    assert_eq!(drive_step(&mut s, &plan, Some(false), true), RecordAction::AbortEncoderDied);
    let mut t = RecordState::new();
    drive_step(&mut t, &plan, None, false);
    assert_eq!(drive_step(&mut t, &plan, None, false), RecordAction::EncoderMissing);
}

#[test]
fn first_tag_value_wins_and_album_artist_is_a_fallback() {
    let mut sc = TagScratch::default();
    let tags = vec![
        Tag { key: TagKey::TrackTitle, value: "One".to_string() },
        Tag { key: TagKey::AlbumArtist, value: "Band".to_string() },
        Tag { key: TagKey::TrackTitle, value: "Two".to_string() },
        Tag { key: TagKey::Album, value: String::new() },
    ];
    sc.merge_metadata(&tags, Some(vec![1, 2, 3]));
    sc.merge_metadata(&vec![Tag { key: TagKey::Album, value: "LP".to_string() }], Some(vec![9]));
    let t = sc.into_track();
    assert_eq!(t.title.as_deref(), Some("One"));
    assert_eq!(t.artist.as_deref(), Some("Band"));
    assert_eq!(t.album.as_deref(), Some("LP"));
    assert_eq!(t.art, Some(vec![1, 2, 3]));
}

#[test]
fn pcm_frames_and_analysis_channels() {
    assert_eq!(pcm_frames(10, 2), 5);
    assert_eq!(pcm_frames(11, 2), 5);
    assert_eq!(analysis_channels(1), 1);
    assert_eq!(analysis_channels(6), 2);
}
