use bava::color::{hex_to_rgba, nib, rgba_to_hex, u8h, Rgba8};
use bava::config::{
    active_profile_index, bars_from_cli, clamp_sizes, default_path, dynamic_color_count, profile_file_name,
    profile_path, profiles_dir, sanitize_profile_name, AudioConfig, GuiConfig, MAX_BARS_PER_CHANNEL,
};
use bava::config::{load_step, ConfigRead, LoadEvent, LoadNote, LoadPhase};
use bava::keys::{key_to_name, parse_key, ToggleKey};

fn srgba(c: Rgba8) -> (u8, u8, u8, u8) {
    (c.r, c.g, c.b, c.a)
}

#[test]
fn hex_parsing_handles_each_length() {
    assert_eq!(srgba(hex_to_rgba("#f08").unwrap()), (255, 0, 136, 255));
    assert_eq!(srgba(hex_to_rgba("#ff0000").unwrap()), (255, 0, 0, 255));
    assert_eq!(srgba(hex_to_rgba("#80ff0000").unwrap()), (255, 0, 0, 128));
    assert_eq!(srgba(hex_to_rgba("  00ff00 ").unwrap()), (0, 255, 0, 255));
}

#[test]
fn hex_parsing_rejects_garbage() {
    assert!(hex_to_rgba("#xyz").is_none());
    assert!(hex_to_rgba("#12345").is_none());
    assert!(hex_to_rgba("").is_none());
}

#[test]
fn color_hex_round_trips() {
    for hex in ["#ff0000", "#00ff00", "#0000ff", "#123456", "#80abcdef"] {
        let c = hex_to_rgba(hex).unwrap();
        let back = hex_to_rgba(&rgba_to_hex(c)).unwrap();
        assert_eq!(srgba(c), srgba(back), "round-trip changed {hex}");
    }
    assert_eq!(rgba_to_hex(hex_to_rgba("#abcdef").unwrap()), "#abcdef");
    assert!(rgba_to_hex(hex_to_rgba("#80abcdef").unwrap()).starts_with("#80"));
}

#[test]
fn hex_parsing_needs_two_digits_per_byte_and_allows_several_hashes() {
    // Only real hex digits make a byte: a sign is no digit.
    assert!(hex_to_rgba("+f0000").is_none());
    assert!(hex_to_rgba("#+f0000").is_none());
    assert_eq!(srgba(hex_to_rgba("##0a0b0c").unwrap()), (10, 11, 12, 255));
    assert!(hex_to_rgba("#-f0000").is_none());
    assert!(hex_to_rgba("#ffé").is_none());
}

#[test]
fn hex_formatting_is_lower_case_and_drops_opaque_alpha() {
    assert_eq!(rgba_to_hex(Rgba8 { r: 0xAB, g: 0x0C, b: 0x01, a: 255 }), "#ab0c01");
    assert_eq!(rgba_to_hex(Rgba8 { r: 1, g: 2, b: 3, a: 0 }), "#00010203");
}

#[test]
fn key_names_parse_and_round_trip() {
    assert_eq!(parse_key("p"), Some(ToggleKey::KeyP));
    assert_eq!(parse_key("  F3 "), Some(ToggleKey::F3));
    assert_eq!(parse_key("grave"), Some(ToggleKey::Backquote));
    assert_eq!(parse_key("nope"), None);

    assert_eq!(key_to_name(ToggleKey::KeyP), "p");
    assert_eq!(key_to_name(ToggleKey::Backquote), "backquote");
    assert_eq!(parse_key(&key_to_name(ToggleKey::Space)), Some(ToggleKey::Space));
}

#[test]
fn key_aliases_resolve_to_canonical_keys() {
    assert_eq!(parse_key("tilde"), Some(ToggleKey::Backquote));
    assert_eq!(parse_key("ESC"), Some(ToggleKey::Escape));
    assert_eq!(parse_key("Return"), Some(ToggleKey::Enter));
    assert_eq!(key_to_name(ToggleKey::Escape), "escape");
    assert_eq!(key_to_name(ToggleKey::F12), "f12");
}

#[test]
fn sanitize_profile_name_strips_path_chars() {
    assert_eq!(sanitize_profile_name("  my profile "), "my profile");
    assert_eq!(sanitize_profile_name("../../etc/passwd"), "etcpasswd");
    assert_eq!(sanitize_profile_name("a/b\\c:d"), "abcd");
    assert!(sanitize_profile_name("///").is_empty());
}

#[test]
fn profile_path_rejects_empty_after_sanitizing() {
    assert!(profile_path("///").is_none());
}

#[test]
fn profile_file_name_appends_toml_to_the_stem() {
    assert_eq!(profile_file_name(" night-mode_2 ").as_deref(), Some("night-mode_2.toml"));
    assert_eq!(profile_file_name("../x"), Some("x.toml".to_string()));
    assert_eq!(profile_file_name("  "), None);
}

#[test]
fn gui_toggle_key_round_trips_and_falls_back() {
    let mut cfg = GuiConfig::default();
    cfg.set_gui_toggle_key(ToggleKey::F5);
    assert_eq!(cfg.toggle_key, "f5");
    assert_eq!(cfg.gui_toggle_key(), ToggleKey::F5);

    cfg.toggle_key = "definitely-not-a-key".into();
    assert_eq!(cfg.gui_toggle_key(), parse_key("p").unwrap());
}

#[test]
fn audio_defaults_match_the_capture_defaults() {
    let a = AudioConfig::default();
    assert_eq!(a.source, None);
    assert!(a.follow_active_sink);
    assert_eq!((a.rate, a.channels, a.frame_samples), (44_100, 2, 128));
    assert_eq!(GuiConfig::default().toggle_key, "p");
}

#[test]
fn cli_overrides_reject_values_that_would_divide_by_zero() {
    let mut a = AudioConfig::default();
    a.apply_cli(&Some("mon".to_string()), Some(0), Some(3), Some(0));
    assert_eq!(a.source.as_deref(), Some("mon"));
    assert_eq!((a.rate, a.channels, a.frame_samples), (44_100, 2, 128));
    a.apply_cli(&None, Some(48_000), Some(1), Some(256));
    assert_eq!(a.source.as_deref(), Some("mon"));
    assert_eq!((a.rate, a.channels, a.frame_samples), (48_000, 1, 256));
}

#[test]
fn bars_override_rejects_zero_and_clamps_huge_values() {
    assert_eq!(bars_from_cli(24, None), 24);
    assert_eq!(bars_from_cli(24, Some(0)), 24);
    assert_eq!(bars_from_cli(24, Some(50)), 50);
    assert_eq!(bars_from_cli(24, Some(1_000_000)), MAX_BARS_PER_CHANNEL);
}

#[test]
fn clamped_sizes_stay_in_their_ranges() {
    let mut a = AudioConfig::default();
    a.rate = 0;
    a.channels = 9;
    a.frame_samples = 1 << 20;
    let s = clamp_sizes(0, &a);
    assert_eq!((s.bars_per_channel, s.channels, s.rate, s.frame_samples), (1, 2, 8_000, 65_536));
    a.rate = 10_000_000;
    a.channels = 0;
    a.frame_samples = 3;
    let s = clamp_sizes(5000, &a);
    assert_eq!((s.bars_per_channel, s.channels, s.rate, s.frame_samples), (1024, 1, 384_000, 16));
    let s = clamp_sizes(24, &AudioConfig::default());
    assert_eq!((s.bars_per_channel, s.channels, s.rate, s.frame_samples), (24, 2, 44_100, 128));
}

#[test]
fn profile_and_palette_indices_are_clamped() {
    assert_eq!(active_profile_index(99, 2), 1);
    assert_eq!(active_profile_index(0, 3), 0);
    assert_eq!(dynamic_color_count(0), 2);
    assert_eq!(dynamic_color_count(4), 4);
    assert_eq!(dynamic_color_count(9), 5);
}

#[test]
fn sanitizing_keeps_letters_of_any_script() {
    assert_eq!(sanitize_profile_name("café ☕"), "café ");
    assert_eq!(sanitize_profile_name("Ünï-cödé_1"), "Ünï-cödé_1");
    assert_eq!(sanitize_profile_name("a.b"), "ab");
}

#[test]
fn profile_paths_live_under_the_profiles_directory() {
    if let Some(p) = profile_path(" night/../x ") {
        assert!(p.ends_with("bava/profiles/nightx.toml"), "{p:?}");
        assert_eq!(p.parent(), profiles_dir().as_deref());
    }
    if let Some(d) = default_path() {
        assert!(d.ends_with("bava/config.toml"));
    }
}

#[test]
fn config_load_uses_a_parsed_file_as_is() {
    assert_eq!(
        load_step(LoadPhase::Reading, LoadEvent::Read(ConfigRead::Parsed)),
        (LoadPhase::Done { use_parsed: true }, None)
    );
}

#[test]
fn config_load_backs_up_an_unparsable_file_before_writing_defaults() {
    let (p, note) = load_step(LoadPhase::Reading, LoadEvent::Read(ConfigRead::Unparsable));
    assert_eq!((p, note), (LoadPhase::BackingUp, None));
    let (p, note) = load_step(p, LoadEvent::Renamed(true));
    assert_eq!((p, note), (LoadPhase::Writing { after_backup: true }, Some(LoadNote::BackedUp)));
    assert_eq!(load_step(p, LoadEvent::Wrote(true)), (LoadPhase::Done { use_parsed: false }, None));
    assert_eq!(
        load_step(p, LoadEvent::Wrote(false)),
        (LoadPhase::Done { use_parsed: false }, Some(LoadNote::FreshWriteFailed))
    );
}

#[test]
fn config_load_leaves_the_file_alone_when_the_backup_fails() {
    assert_eq!(
        load_step(LoadPhase::BackingUp, LoadEvent::Renamed(false)),
        (LoadPhase::Done { use_parsed: false }, Some(LoadNote::BackupFailed))
    );
}

#[test]
fn config_load_creates_a_missing_file() {
    let (p, note) = load_step(LoadPhase::Reading, LoadEvent::Read(ConfigRead::Missing));
    assert_eq!((p, note), (LoadPhase::Writing { after_backup: false }, None));
    assert_eq!(load_step(p, LoadEvent::Wrote(true)), (LoadPhase::Done { use_parsed: false }, Some(LoadNote::Created)));
    assert_eq!(
        load_step(p, LoadEvent::Wrote(false)),
        (LoadPhase::Done { use_parsed: false }, Some(LoadNote::CreateFailed))
    );
}

#[test]
fn config_load_falls_back_to_defaults_on_a_read_error() {
    assert_eq!(
        load_step(LoadPhase::Reading, LoadEvent::Read(ConfigRead::Unreadable)),
        (LoadPhase::Done { use_parsed: false }, Some(LoadNote::ReadFailed))
    );
}

#[test]
fn hex_byte_helpers_stop_at_the_end_of_the_text() {
    let h = |s: &str| s.chars().collect::<Vec<char>>();
    assert_eq!(u8h(&h("ff0000"), 0), Some(255));
    assert_eq!(u8h(&h("80ff0000"), 0), Some(128));
    assert_eq!(u8h(&h("ff0000"), 4), Some(0));
    assert_eq!(u8h(&h("ff0"), 2), None);
    assert_eq!(u8h(&h("zz"), 0), None);
    assert_eq!(u8h(&h("+f"), 0), None);
    assert_eq!(nib(&h("f08"), 0), Some(255));
    assert_eq!(nib(&h("f08"), 1), Some(0));
    assert_eq!(nib(&h("f08"), 2), Some(136));
    assert_eq!(nib(&h("f08"), 3), None);
    assert_eq!(nib(&h("g"), 0), None);
}
