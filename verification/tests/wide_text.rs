use filelens::wide::{decode_wide, to_string, to_wstring};

#[test]
fn to_wstring_ascii_ends_in_two_nuls() {
    assert_eq!(to_wstring("EDIT"), vec![0x45, 0x44, 0x49, 0x54, 0, 0]);
}

#[test]
fn to_wstring_empty() {
    assert_eq!(to_wstring(""), vec![0, 0]);
}

#[test]
fn to_wstring_bmp_and_supplementary() {
    // U+00E9, U+4E2D, U+1F600 (a surrogate pair)
    assert_eq!(to_wstring("é中😀"), vec![0x00E9, 0x4E2D, 0xD83D, 0xDE00, 0, 0]);
}

#[test]
fn to_wstring_matches_std_utf16() {
    let text = "SysListView32 — ünïcödé 𝄞";
    let mut expected: Vec<u16> = text.encode_utf16().collect();
    expected.push(0);
    expected.push(0);
    assert_eq!(to_wstring(text), expected);
}

#[test]
fn to_string_stops_at_first_nul() {
    let wide = vec![0x48, 0x69, 0, 0x58, 0x59, 0];
    assert_eq!(to_string(&wide), "Hi");
}

#[test]
fn to_string_without_nul_reads_everything() {
    let wide = vec![0x61, 0x62, 0x63];
    assert_eq!(to_string(&wide), "abc");
}

#[test]
fn to_string_of_all_nul_buffer_is_empty() {
    let wide = vec![0u16; 258];
    assert_eq!(to_string(&wide), "");
}

#[test]
fn to_string_decodes_surrogate_pair() {
    let wide = vec![0xD834, 0xDD1E, 0x41, 0];
    assert_eq!(to_string(&wide), "𝄞A");
}

#[test]
fn round_trip_through_wide_buffer() {
    for text in ["", "my_window", "Name: 42", "Path 9999", "日本語 😀 text"] {
        assert_eq!(to_string(&to_wstring(text)), text);
    }
}

#[test]
fn decode_wide_rejects_unpaired_high_surrogate() {
    assert_eq!(decode_wide(&vec![0x41, 0xD800, 0x42, 0]), None);
}

#[test]
fn decode_wide_rejects_lone_low_surrogate() {
    assert_eq!(decode_wide(&vec![0xDC00, 0]), None);
}

#[test]
fn decode_wide_rejects_high_surrogate_before_nul() {
    assert_eq!(decode_wide(&vec![0x41, 0xD83D, 0, 0xDE00]), None);
}

#[test]
fn decode_wide_ignores_invalid_units_after_nul() {
    assert_eq!(decode_wide(&vec![0x41, 0, 0xD800]), Some("A".to_string()));
}

#[test]
fn valid_wide_text_reencodes_to_same_units() {
    let wide: Vec<u16> = vec![0x48, 0xD83D, 0xDE00, 0x20AC, 0, 0];
    let text = to_string(&wide);
    assert_eq!(text, "H😀€");
    assert_eq!(to_wstring(&text), wide);
}
