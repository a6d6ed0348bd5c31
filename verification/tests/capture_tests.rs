use bava::capture::{
    active_sink, chunk_len, endpoint_changed, initial_device, follows_active_sink, fragment_bytes, is_device_lost, monitor_name,
    overflow_count, pending_cap, pipewire_target, plan_chunks, queue_cap, reconcile, ring_capacity, sample_kind,
    should_switch_sink, sign_extend_24, source_channel, CaptureError, SampleKind, SinkInput,
    AUDCLNT_E_DEVICE_INVALIDATED, MAX_WEB_BACKLOG, WAVE_FORMAT_EXTENSIBLE, WAVE_FORMAT_IEEE_FLOAT, WAVE_FORMAT_PCM,
};

#[test]
fn capture_errors_describe_themselves() {
    assert_eq!(CaptureError::Init("no server".into()).message(), "capture init failed: no server");
    assert_eq!(CaptureError::Read("eof".into()).message(), "capture read failed: eof");
}

#[test]
fn sample_formats_decode_by_tag_and_depth() {
    assert_eq!(sample_kind(WAVE_FORMAT_IEEE_FLOAT, 0, false, 32), Some(SampleKind::F32));
    assert_eq!(sample_kind(WAVE_FORMAT_PCM, 0, false, 24), Some(SampleKind::I24));
    assert_eq!(sample_kind(WAVE_FORMAT_EXTENSIBLE, 22, true, 32), Some(SampleKind::F32));
    assert_eq!(sample_kind(WAVE_FORMAT_EXTENSIBLE, 22, false, 16), Some(SampleKind::I16));
    assert_eq!(sample_kind(WAVE_FORMAT_EXTENSIBLE, 0, true, 32), None);
    assert_eq!(sample_kind(WAVE_FORMAT_PCM, 0, false, 8), None);
    assert_eq!(SampleKind::I24.size(), 3);
    assert_eq!(SampleKind::F32.size(), 4);
}

#[test]
fn lost_devices_are_recognised() {
    assert!(is_device_lost(AUDCLNT_E_DEVICE_INVALIDATED));
    assert!(is_device_lost(-2004287472));
    assert!(!is_device_lost(0));
}

#[test]
fn packed_24_bit_samples_sign_extend() {
    assert_eq!(sign_extend_24(0xff, 0xff, 0x7f), 8_388_607);
    assert_eq!(sign_extend_24(0x00, 0x00, 0x80), -8_388_608);
    assert_eq!(sign_extend_24(0xff, 0xff, 0xff), -1);
    assert_eq!(sign_extend_24(1, 0, 0), 1);
}

#[test]
fn channels_map_onto_the_device_layout() {
    assert_eq!(source_channel(0, 2), 0);
    assert_eq!(source_channel(1, 1), 0);
    assert_eq!(source_channel(5, 3), 2);
}

#[test]
fn buffers_are_sized_from_rate_and_channels() {
    assert_eq!(ring_capacity(44_100, 2), 22_050);
    assert_eq!(ring_capacity(3, 0), 1);
    assert_eq!(chunk_len(128, 2), 256);
    assert_eq!(chunk_len(0, 0), 1);
    let p = plan_chunks(1000, 256);
    assert_eq!((p.chunks, p.leftover), (3, 232));
    assert_eq!(overflow_count(10, 4), 6);
    assert_eq!(overflow_count(3, 4), 0);
    assert_eq!(fragment_bytes(128, 2), 1024);
    assert_eq!(fragment_bytes(0, 2), 1);
    assert_eq!(pending_cap(48_000, 2, 1024), 192_000);
    assert_eq!(pending_cap(10, 1, 1024), 1024);
    assert_eq!(queue_cap(48_000, 2), 384_000);
    assert_eq!(queue_cap(0, 0), 1);
}

#[test]
fn sink_following_decisions() {
    assert!(follows_active_sink(&None, true));
    assert!(!follows_active_sink(&Some("x".into()), true));
    assert!(should_switch_sink(&Some("a".into()), &Some("b".into())));
    assert!(!should_switch_sink(&Some("a".into()), &Some("a".into())));
    assert!(!should_switch_sink(&Some("a".into()), &None));
    assert!(should_switch_sink(&None, &Some("b".into())));
    assert!(endpoint_changed(&Some("old".into()), &"new".to_string()));
    assert!(!endpoint_changed(&Some("same".into()), &"same".to_string()));
    assert!(!endpoint_changed(&None, &"new".to_string()));
}

#[test]
fn the_latest_playing_stream_picks_the_sink() {
    let s = |index, sink, corked, mute| SinkInput { index, sink, corked, mute };
    assert_eq!(active_sink(&vec![s(1, 10, false, false), s(5, 20, false, false), s(9, 30, true, false)]), Some(20));
    assert_eq!(active_sink(&vec![s(1, 10, true, false), s(2, 20, false, true)]), None);
    assert_eq!(monitor_name("alsa_output.pci"), "alsa_output.pci.monitor");
}

#[test]
fn pipewire_targets_strip_monitor_suffixes() {
    assert_eq!(pipewire_target(&None), None);
    assert_eq!(pipewire_target(&Some(String::new())), None);
    assert_eq!(pipewire_target(&Some("default".into())), None);
    assert_eq!(pipewire_target(&Some("auto".into())), None);
    assert_eq!(pipewire_target(&Some("alsa_output.x.monitor".into())).as_deref(), Some("alsa_output.x"));
    assert_eq!(pipewire_target(&Some("speakers".into())).as_deref(), Some("speakers"));
}

#[test]
fn negotiated_formats_rebuild_the_plan_only_when_they_differ() {
    assert_eq!(reconcile(0, 2, 44_100, 2, 50, 10_000), None);
    assert_eq!(reconcile(44_100, 2, 44_100, 2, 50, 10_000), None);
    let r = reconcile(16_000, 6, 44_100, 2, 50, 10_000).unwrap();
    assert_eq!((r.rate, r.channels, r.high_cutoff), (16_000, 2, 7_999));
    let m = reconcile(48_000, 1, 44_100, 2, 50, 10_000).unwrap();
    assert_eq!((m.rate, m.channels, m.high_cutoff), (48_000, 1, 10_000));
}

#[test]
fn capture_starts_on_the_pinned_or_playing_device() {
    assert_eq!(initial_device(Some("pinned".into()), true, Some("active".into())).as_deref(), Some("pinned"));
    assert_eq!(initial_device(None, true, Some("active".into())).as_deref(), Some("active"));
    assert_eq!(initial_device(None, false, Some("active".into())), None);
    assert_eq!(initial_device(None, true, None), None);
}

#[test]
fn web_backlog_drops_the_oldest_samples() {
    assert_eq!(overflow_count(200_000, MAX_WEB_BACKLOG), 8_000);
    assert_eq!(overflow_count(MAX_WEB_BACKLOG, MAX_WEB_BACKLOG), 0);
}
