use mgrs2latlong::classify::is_likely_mgrs;

#[test]
fn accepts_compact_reference() {
    assert!(is_likely_mgrs("33TWN1234567890"));
}

#[test]
fn accepts_spaced_groups() {
    assert!(is_likely_mgrs("33T WN 12345 67890"));
}

#[test]
fn accepts_lowercase() {
    assert!(is_likely_mgrs("33twn1234567890"));
}

#[test]
fn accepts_single_zone_digit() {
    assert!(is_likely_mgrs("1C AB 1234567"));
}

#[test]
fn accepts_embedded_reference() {
    assert!(is_likely_mgrs("coords: 33TWN1234567890 end"));
}

#[test]
fn accepts_surrounding_whitespace() {
    assert!(is_likely_mgrs("  33TWN1234567890  "));
}

#[test]
fn accepts_tab_separated_groups() {
    assert!(is_likely_mgrs("33\tT\tWN\t12345\t67890"));
}

#[test]
fn accepts_minimal_length() {
    assert!(is_likely_mgrs("33TWN12"));
}

#[test]
fn rejects_below_minimal_length() {
    assert!(!is_likely_mgrs("3TWN12"));
}

#[test]
fn rejects_plain_text() {
    assert!(!is_likely_mgrs("not-a-coord"));
}

#[test]
fn rejects_empty() {
    assert!(!is_likely_mgrs(""));
}

#[test]
fn rejects_whitespace_only() {
    assert!(!is_likely_mgrs("   \t  "));
}

#[test]
fn rejects_band_letter_i() {
    assert!(!is_likely_mgrs("33IWN1234567890"));
}

#[test]
fn rejects_band_letter_o() {
    assert!(!is_likely_mgrs("33OWN1234567890"));
}

#[test]
fn rejects_band_letter_outside_range() {
    assert!(!is_likely_mgrs("33AWN1234567890"));
}

#[test]
fn rejects_three_zone_digits() {
    assert!(!is_likely_mgrs("333TWN1234567890"));
}

#[test]
fn rejects_eleven_trailing_digits() {
    assert!(!is_likely_mgrs("33TWN12345678901"));
}

#[test]
fn rejects_word_character_before() {
    assert!(!is_likely_mgrs("x33TWN1234567890"));
}

#[test]
fn rejects_word_character_after() {
    assert!(!is_likely_mgrs("33TWN12345x"));
}

#[test]
fn rejects_single_square_letter() {
    assert!(!is_likely_mgrs("33T W 12345"));
}
