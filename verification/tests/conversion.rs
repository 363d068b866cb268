use mgrs2latlong::convert::convert_mgrs_to_latlon;

#[test]
fn converts_compact_reference() {
    let (lat, lon) = convert_mgrs_to_latlon("33TWN1234567890").expect("should convert");
    let lat: f64 = lat.parse().expect("latitude is a decimal number");
    let lon: f64 = lon.parse().expect("longitude is a decimal number");
    // Zone 33, band T: central Europe.
    assert!((35.0..55.0).contains(&lat), "latitude {lat} out of band");
    assert!((9.0..21.0).contains(&lon), "longitude {lon} out of zone");
}

#[test]
fn normalizes_internal_whitespace() {
    let spaced = convert_mgrs_to_latlon("33T WN 12345 67890").expect("should convert");
    let compact = convert_mgrs_to_latlon("33TWN1234567890").expect("should convert");
    assert_eq!(spaced, compact);
}

#[test]
fn trims_surrounding_whitespace() {
    let padded = convert_mgrs_to_latlon("  33TWN1234567890\t").expect("should convert");
    let compact = convert_mgrs_to_latlon("33TWN1234567890").expect("should convert");
    assert_eq!(padded, compact);
}

#[test]
fn matches_external_capability_exactly() {
    // The decimal strings carry the capability's full double-precision
    // values, digit for digit.
    let (lat, lon) = convert_mgrs_to_latlon("18TWL856641113154").expect("should convert");
    let reference = geoconvert::Mgrs::parse_str("18TWL856641113154")
        .expect("reference parse")
        .to_latlon();
    assert_eq!(lat, reference.latitude().to_string());
    assert_eq!(lon, reference.longitude().to_string());
    assert_eq!(lat.parse::<f64>().unwrap(), reference.latitude());
    assert_eq!(lon.parse::<f64>().unwrap(), reference.longitude());
}

#[test]
fn rejects_invalid_zone() {
    assert_eq!(convert_mgrs_to_latlon("99XAB1234567"), None);
}

#[test]
fn rejects_unparseable_text() {
    assert_eq!(convert_mgrs_to_latlon("notacoordinate"), None);
}

#[test]
fn rejects_overlong_zone_digits() {
    // Ten leading digits would overflow the external parser's 32-bit zone
    // accumulator; the shape gate rejects the value instead.
    assert_eq!(convert_mgrs_to_latlon("9999999999"), None);
    assert_eq!(convert_mgrs_to_latlon("9999999999XAB12"), None);
}

#[test]
fn rejects_overlong_digit_tail() {
    // Twenty trailing digits would overflow the external parser's 32-bit
    // easting/northing accumulation; the shape gate rejects the value.
    assert_eq!(convert_mgrs_to_latlon("1CAB12345678901234567890"), None);
}

#[test]
fn accepts_longest_well_formed_reference() {
    // Two zone digits, three letters, and ten digits: the longest
    // well-formed shape still converts.
    assert!(convert_mgrs_to_latlon("33TWN1234567890").is_some());
}

#[test]
fn round_trips_through_grid_system() {
    let (lat, lon) = convert_mgrs_to_latlon("33TWN1234567890").expect("should convert");
    let lat: f64 = lat.parse().unwrap();
    let lon: f64 = lon.parse().unwrap();
    let coord = geoconvert::LatLon::create(lat, lon).expect("valid degrees");
    let re_encoded = coord.to_mgrs(5);
    let back = re_encoded.to_latlon();
    assert!((back.latitude() - lat).abs() < 1e-4);
    assert!((back.longitude() - lon).abs() < 1e-4);
}
