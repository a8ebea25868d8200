use thermal::encoding::detect;

#[test]
fn ascii_is_detected_as_windows_1252() {
    let (charset, text) = detect(b"Hello");
    assert_eq!(charset, "windows-1252");
    assert_eq!(text, Some("Hello".to_string()));
}

#[test]
fn shift_jis_kanji_are_detected_and_decoded() {
    let (charset, text) = detect(&[0x8A, 0xBF, 0x8E, 0x9A]);
    assert_eq!(charset, "Shift_JIS");
    assert_eq!(text, Some("漢字".to_string()));
}

#[test]
fn euc_kr_hangul_is_detected_and_decoded() {
    let bytes = [0xC7, 0xD1, 0xB1, 0xB9, 0xBE, 0xEE, 0x20, 0xC5, 0xD8, 0xBD, 0xBA, 0xC6, 0xAE];
    let (charset, text) = detect(&bytes);
    assert_eq!(charset, "EUC-KR");
    assert_eq!(text, Some("한국어 텍스트".to_string()));
}

#[test]
fn utf8_is_never_the_guess() {
    let (charset, text) = detect("漢字".as_bytes());
    assert_eq!(charset, "windows-1252");
    assert_eq!(text, Some("æ¼¢å\u{ad}—".to_string()));
}

#[test]
fn empty_payload_decodes_to_empty_text() {
    let (charset, text) = detect(b"");
    assert_eq!(charset, "windows-1252");
    assert_eq!(text, Some(String::new()));
}
