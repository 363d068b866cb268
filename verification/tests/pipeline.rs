use mgrs2latlong::pipeline::{process_records, PipelineError};

fn strings(data: &[&str]) -> Vec<String> {
    data.iter().map(|s| s.to_string()).collect()
}

fn rows(data: &[&[&str]]) -> Vec<Vec<String>> {
    data.iter().map(|r| strings(r)).collect()
}

#[test]
fn scenario_a_converts_and_blanks() {
    let headers = strings(&["id", "pos", "name"]);
    let records = rows(&[
        &["1", "33T WN 12345 67890", "Alice"],
        &["2", "not-a-coord", "Bob"],
    ]);
    let out = process_records(&headers, &records).expect("column 1 should be detected");
    assert_eq!(out.column, 1);
    assert_eq!(
        out.headers,
        strings(&["id", "pos", "name", "Latitude", "Longitude"])
    );
    assert_eq!(out.rows.len(), 2);

    let first = &out.rows[0];
    assert_eq!(&first[..3], &strings(&["1", "33T WN 12345 67890", "Alice"])[..]);
    assert!(!first[3].is_empty());
    assert!(!first[4].is_empty());
    first[3].parse::<f64>().expect("latitude is a decimal number");
    first[4].parse::<f64>().expect("longitude is a decimal number");

    let second = &out.rows[1];
    assert_eq!(&second[..3], &strings(&["2", "not-a-coord", "Bob"])[..]);
    assert_eq!(second[3], "");
    assert_eq!(second[4], "");
}

#[test]
fn scenario_b_aborts_without_detection() {
    let headers = strings(&["id", "note"]);
    let records = rows(&[&["1", "hello"], &["2", "world"]]);
    let result = process_records(&headers, &records);
    assert!(matches!(result, Err(PipelineError::NoColumnDetected)));
}

#[test]
fn empty_dataset_aborts() {
    let headers = strings(&["id", "pos"]);
    let records: Vec<Vec<String>> = Vec::new();
    let result = process_records(&headers, &records);
    assert!(matches!(result, Err(PipelineError::NoColumnDetected)));
}

#[test]
fn running_twice_gives_identical_output() {
    let headers = strings(&["id", "pos"]);
    let records = rows(&[
        &["1", "33TWN1234567890"],
        &["2", ""],
        &["3", "18TWL856641113154"],
    ]);
    let first = process_records(&headers, &records).expect("detected");
    let second = process_records(&headers, &records).expect("detected");
    assert_eq!(first.column, second.column);
    assert_eq!(first.headers, second.headers);
    assert_eq!(first.rows, second.rows);
}

#[test]
fn blank_values_propagate_as_empty_fields() {
    let headers = strings(&["pos", "note"]);
    let records = rows(&[
        &["33TWN1234567890", "good"],
        &["", "empty"],
        &["   \t ", "whitespace only"],
        &["not a coordinate", "implausible"],
    ]);
    let out = process_records(&headers, &records).expect("detected");
    assert_eq!(out.column, 0);
    for row in &out.rows[1..] {
        assert_eq!(row.len(), 4);
        assert_eq!(row[2], "");
        assert_eq!(row[3], "");
    }
    for (i, row) in out.rows.iter().enumerate() {
        assert_eq!(&row[..2], &records[i][..]);
    }
}

#[test]
fn plausible_but_invalid_value_blanks_row_only() {
    // Zone 99 passes the shape pre-filter but the grid system rejects it:
    // the failure stays local to its row.
    let headers = strings(&["pos"]);
    let records = rows(&[&["33TWN1234567890"], &["99XAB1234567"]]);
    let out = process_records(&headers, &records).expect("detected");
    assert!(!out.rows[0][1].is_empty());
    assert_eq!(out.rows[1][1], "");
    assert_eq!(out.rows[1][2], "");
}

#[test]
fn overlong_digit_field_blanks_row_only() {
    // The plausible pattern sits inside a field whose other characters glue
    // into an overlong digit run once whitespace is stripped; the row gets
    // blanks and the run goes on.
    let headers = strings(&["pos"]);
    let records = rows(&[&["33TWN1234567890"], &["9999999999 1C AB 123 456"]]);
    let out = process_records(&headers, &records).expect("detected");
    assert!(!out.rows[0][1].is_empty());
    assert_eq!(out.rows[1][1], "");
    assert_eq!(out.rows[1][2], "");
}

#[test]
fn short_row_gets_blank_fields() {
    let headers = strings(&["id", "pos"]);
    let records = rows(&[&["1", "33TWN1234567890"], &["2"]]);
    let out = process_records(&headers, &records).expect("detected");
    assert_eq!(out.column, 1);
    assert_eq!(out.rows[1], strings(&["2", "", ""]));
}

#[test]
fn output_preserves_row_order_and_format() {
    let headers = strings(&["id", "pos"]);
    let records = rows(&[
        &["1", "33TWN1234567890"],
        &["2", "x"],
        &["3", "33TWN1234567890"],
    ]);
    let out = process_records(&headers, &records).expect("detected");
    assert_eq!(out.rows.len(), 3);
    for (i, row) in out.rows.iter().enumerate() {
        assert_eq!(row[0], records[i][0]);
        assert_eq!(row.len(), headers.len() + 2);
    }
}
