use bava::dsp::{
    check_cutoff, check_shape, fft_buffer_size, left_range, plan_geometry, right_range, shift_in_reversed, usable_input,
    ParamError,
};

#[test]
fn default_config_builds() {
    assert_eq!(check_shape(32, 44_100, 2), Ok(()));
    assert_eq!(check_cutoff(50, 10_000, 44_100), Ok(()));
    let plan = plan_geometry(32, 44_100, 2).expect("default should build");
    assert_eq!(plan.bars, 32);
    assert_eq!(plan.channels, 2);
    assert_eq!(plan.rate, 44_100);
    assert_eq!(plan.output_len(), 64);
    assert!(plan.max_input_samples() > 0);
}

#[test]
fn rejects_bad_channel_count() {
    for ch in [0, 3, 8] {
        assert_eq!(check_shape(32, 44_100, ch), Err(ParamError::InvalidChannels(ch)));
    }
}

#[test]
fn rejects_zero_bars() {
    assert_eq!(check_shape(0, 44_100, 2), Err(ParamError::InvalidBars(0)));
}

#[test]
fn rejects_zero_rate() {
    assert_eq!(check_shape(32, 0, 2), Err(ParamError::InvalidRate(0)));
}

#[test]
fn rejects_bad_cutoff_band() {
    assert!(matches!(check_cutoff(0, 10_000, 44_100), Err(ParamError::InvalidCutoff { .. })));
    assert!(matches!(check_cutoff(5000, 5000, 44_100), Err(ParamError::InvalidCutoff { .. })));
    assert!(matches!(check_cutoff(50, 30_000, 44_100), Err(ParamError::InvalidCutoff { .. })));
}

#[test]
fn output_len_matches_mono_and_stereo() {
    let mono = plan_geometry(24, 44_100, 1).unwrap();
    assert_eq!(mono.output_len(), 24);
    let stereo = plan_geometry(24, 44_100, 2).unwrap();
    assert_eq!(stereo.output_len(), 48);
}

#[test]
fn fft_window_doubles_per_rate_band() {
    assert_eq!(fft_buffer_size(8_000), 512);
    assert_eq!(fft_buffer_size(8_126), 1024);
    assert_eq!(fft_buffer_size(44_100), 4096);
    assert_eq!(fft_buffer_size(384_000), 32_768);
}

#[test]
fn plan_rejects_illegal_rates_and_too_many_bars() {
    assert_eq!(plan_geometry(32, 384_001, 2), Err(ParamError::IllegalRate(384_001)));
    assert_eq!(
        plan_geometry(258, 8_000, 1),
        Err(ParamError::TooManyBars { bars: 258, rate: 8_000, max: 257 })
    );
    let g = plan_geometry(16, 44_100, 2).unwrap();
    assert_eq!((g.fft_treble, g.fft_bass, g.input_buffer_size), (4096, 8192, 16_384));
}

#[test]
fn only_whole_frames_are_consumed() {
    assert_eq!(usable_input(511, 2, 16_384), 510);
    assert_eq!(usable_input(513, 2, 16_384), 512);
    assert_eq!(usable_input(40_000, 2, 16_384), 16_384);
}

#[test]
fn new_samples_enter_the_ring_reversed() {
    let mut ring = vec![1, 2, 3, 4, 5];
    shift_in_reversed(&mut ring, &[10, 11]);
    assert_eq!(ring, vec![11, 10, 1, 2, 3]);
    shift_in_reversed(&mut ring, &[]);
    assert_eq!(ring, vec![11, 10, 1, 2, 3]);
    shift_in_reversed(&mut ring, &[7, 8, 9, 10, 11]);
    assert_eq!(ring, vec![11, 10, 9, 8, 7]);
}

#[test]
fn channel_ranges_of_published_bars() {
    // Mono: the left range is everything, the right range empty.
    assert_eq!(left_range(4, 4), (0, 4));
    assert_eq!(right_range(4, 1, 4), (0, 0));
    // Stereo: [L0, L1, L2, R0, R1, R2].
    let bars = [1.0f32, 0.0, 0.5, 0.0, 1.0, 0.5];
    let (a, b) = left_range(3, bars.len());
    let (c, d) = right_range(3, 2, bars.len());
    assert_eq!(&bars[a..b], &[1.0, 0.0, 0.5]);
    assert_eq!(&bars[c..d], &[0.0, 1.0, 0.5]);
    // A buffer shorter than declared never reads out of bounds.
    assert_eq!(left_range(4, 1), (0, 1));
    assert_eq!(right_range(4, 2, 1), (1, 1));
    assert_eq!(left_range(0, 0), (0, 0));
}

#[test]
fn analyser_rejections_carry_its_own_diagnostics() {
    let e = plan_geometry(24, 400_000, 2).unwrap_err();
    assert_eq!(e, ParamError::IllegalRate(400_000));
    assert_eq!(e.init_diagnostic().as_deref(), Some("cava_init called with illegal sample rate: 400000\n"));
    assert_eq!(e.message(), "cavacore rejected parameters: cava_init called with illegal sample rate: 400000\n");
    assert!(plan_geometry(24, 384_000, 2).is_ok());

    let ok = plan_geometry(257, 8_000, 2).unwrap();
    assert_eq!(ok.output_len(), 514);
    let e = plan_geometry(258, 8_000, 2).unwrap_err();
    assert_eq!(
        e.init_diagnostic().as_deref(),
        Some("cava_init called with illegal number of bars: 258, for 8000 sample rate number of bars can't be more than 257\n")
    );
}

#[test]
fn range_check_rejections_read_as_before() {
    assert_eq!(ParamError::InvalidChannels(3).message(), "channels must be 1 or 2, got 3");
    assert_eq!(ParamError::InvalidBars(0).message(), "bars must be >= 1, got 0");
    assert_eq!(ParamError::InvalidRate(0).message(), "rate must be > 0, got 0");
    assert_eq!(
        ParamError::InvalidCutoff { low: 50, high: 30_000, rate: 44_100 }.message(),
        "invalid cut-off band: low=50 high=30000 (must satisfy 0 < low < high < rate/2 = 22050)"
    );
    assert_eq!(ParamError::InvalidChannels(3).init_diagnostic(), None);
}
