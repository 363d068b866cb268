use mgrs2latlong::detect::detect_mgrs_column;

fn rows(data: &[&[&str]]) -> Vec<Vec<String>> {
    data.iter()
        .map(|r| r.iter().map(|f| f.to_string()).collect())
        .collect()
}

#[test]
fn detects_scenario_a_column() {
    let records = rows(&[
        &["1", "33T WN 12345 67890", "Alice"],
        &["2", "not-a-coord", "Bob"],
    ]);
    assert_eq!(detect_mgrs_column(&records), Some(1));
}

#[test]
fn no_rows_detects_nothing() {
    let records: Vec<Vec<String>> = Vec::new();
    assert_eq!(detect_mgrs_column(&records), None);
}

#[test]
fn no_matching_column_detects_nothing() {
    let records = rows(&[&["1", "hello", "Alice"], &["2", "world", "Bob"]]);
    assert_eq!(detect_mgrs_column(&records), None);
}

#[test]
fn unique_column_found_first_position() {
    let records = rows(&[&["33TWN1234567890", "x", "y"]]);
    assert_eq!(detect_mgrs_column(&records), Some(0));
}

#[test]
fn unique_column_found_last_position() {
    let records = rows(&[&["x", "y", "33TWN1234567890"]]);
    assert_eq!(detect_mgrs_column(&records), Some(2));
}

#[test]
fn tie_breaks_to_lowest_index() {
    let records = rows(&[&["33TWN1234567890", "x", "18TWL8566411315"]]);
    assert_eq!(detect_mgrs_column(&records), Some(0));
}

#[test]
fn higher_score_wins_over_earlier_column() {
    let records = rows(&[
        &["33TWN1234567890", "x"],
        &["nope", "18TWL8566411315"],
        &["nope", "18TWL8566411315"],
    ]);
    assert_eq!(detect_mgrs_column(&records), Some(1));
}

#[test]
fn sampling_stops_after_first_hundred_rows() {
    let mut data: Vec<Vec<String>> = Vec::new();
    for i in 0..100 {
        data.push(vec![format!("row{i}"), "plain".to_string()]);
    }
    data.push(vec!["x".to_string(), "33TWN1234567890".to_string()]);
    assert_eq!(detect_mgrs_column(&data), None);
}

#[test]
fn hundredth_row_still_sampled() {
    let mut data: Vec<Vec<String>> = Vec::new();
    for i in 0..99 {
        data.push(vec![format!("row{i}"), "plain".to_string()]);
    }
    data.push(vec!["x".to_string(), "33TWN1234567890".to_string()]);
    assert_eq!(detect_mgrs_column(&data), Some(1));
}

#[test]
fn short_rows_ignore_missing_fields() {
    let records = rows(&[&["a", "33TWN1234567890"], &["b"]]);
    assert_eq!(detect_mgrs_column(&records), Some(1));
}
