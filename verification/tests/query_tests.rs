use bava::query::{percent_decode, query_to_args};

#[test]
fn query_string_becomes_command_line() {
    assert_eq!(
        query_to_args("?bars=32&gui&mode=wave-circle"),
        vec!["bava", "--bars", "32", "--gui", "--mode", "wave-circle"]
    );
}

#[test]
fn query_skips_page_keys_and_empty_pairs() {
    assert_eq!(query_to_args("?video=abc&bars=48"), vec!["bava", "--bars", "48"]);
    assert_eq!(query_to_args("??&&=x&gui&"), vec!["bava", "--gui"]);
    assert_eq!(query_to_args(""), vec!["bava"]);
}

#[test]
fn query_values_keep_equals_and_decode_escapes() {
    assert_eq!(query_to_args("source=a%3Db=c"), vec!["bava", "--source", "a=b=c"]);
    assert_eq!(query_to_args("source=my+sink%20x"), vec!["bava", "--source", "my sink x"]);
    assert_eq!(query_to_args("vi%64eo=1"), vec!["bava"]);
}

#[test]
fn percent_decoding_keeps_stray_percent_signs() {
    assert_eq!(percent_decode("100%"), "100%");
    assert_eq!(percent_decode("a%zzb"), "a%zzb");
    assert_eq!(percent_decode("%41%42+c"), "AB c");
    assert_eq!(percent_decode("%+1"), "% 1");
    assert_eq!(percent_decode("%4"), "%4");
    assert_eq!(percent_decode("%C3%A9"), "é");
    assert_eq!(percent_decode("%FF"), "\u{FFFD}");
    assert_eq!(percent_decode("plain-text"), "plain-text");
}

#[test]
fn every_escaped_byte_decodes_back() {
    let s = "héllo wörld+%";
    let escaped: String = s.bytes().map(|b| format!("%{:02X}", b)).collect();
    assert_eq!(percent_decode(&escaped), s);
    assert_eq!(percent_decode("%41+b"), "A b");
}
