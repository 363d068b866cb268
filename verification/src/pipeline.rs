//! The row converter and streaming pipeline: given the loaded rows, detect
//! the coordinate column, then produce every output row in order with the
//! latitude and longitude fields appended.

use vstd::prelude::*;
use crate::chars::str_chars;
use crate::classify::likely_chars;
use crate::classify::looks_like_mgrs;
use crate::convert::converted_value;
use crate::convert::convert_mgrs_to_latlon;
use crate::detect::detect_spec;
use crate::detect::detect_mgrs_column;

verus! {

/// A fatal condition the pipeline itself can raise: no column of the input
/// ever classifies as a grid reference.
#[derive(Clone, Copy, Debug, PartialEq, Eq, Structural)]
pub enum PipelineError {
    NoColumnDetected,
}

/// The value of the designated column in a row; rows too short to have one
/// are treated as holding the empty value there.
pub open spec fn field_at(row: Seq<Seq<char>>, col: int) -> Seq<char> {
    if 0 <= col < row.len() {
        row[col]
    } else {
        Seq::empty()
    }
}

/// The two fields appended to a row: the converted latitude and longitude
/// when the designated value is plausible and converts, two empty fields
/// otherwise.
pub open spec fn latlon_fields(f: Seq<char>) -> (Seq<char>, Seq<char>) {
    if looks_like_mgrs(f) {
        match converted_value(f) {
            Some(p) => p,
            None => (Seq::empty(), Seq::empty()),
        }
    } else {
        (Seq::empty(), Seq::empty())
    }
}

/// An output row: the input row unchanged, with the latitude and longitude
/// fields appended.
pub open spec fn transform_row_spec(row: Seq<Seq<char>>, col: int) -> Seq<Seq<char>> {
    row + seq![latlon_fields(field_at(row, col)).0, latlon_fields(field_at(row, col)).1]
}

/// All output rows, in input order.
pub open spec fn transform_rows_spec(rows: Seq<Seq<Seq<char>>>, col: int) -> Seq<Seq<Seq<char>>> {
    Seq::new(rows.len(), |i: int| transform_row_spec(rows[i], col))
}

/// The output header set: the input headers with the two new column names
/// appended.
pub open spec fn output_headers_spec(h: Seq<Seq<char>>) -> Seq<Seq<char>> {
    h + seq!["Latitude"@, "Longitude"@]
}

/// Converts one row: passes every field through unchanged and appends the
/// converted latitude and longitude of the designated column's value, or
/// two empty fields when it is missing, implausible, or fails to convert.
#[verifier::loop_isolation(false)]
pub fn transform_row(record: &Vec<String>, col: usize) -> (out: Vec<String>)
    ensures
        out.deep_view() == transform_row_spec(record.deep_view(), col as int),
{
    let ghost row = record.deep_view();
    let n = record.len();
    let mut out: Vec<String> = Vec::new();
    let mut i: usize = 0;
    while i < n
        invariant
            i <= n,
            n == row.len(),
            out.deep_view() =~= row.take(i as int),
        decreases n - i,
    {
        let f = record[i].clone();
        proof {
            assert(f@ == row[i as int]);
        }
        out.push(f);
        proof {
            assert(out.deep_view() =~= row.take(i + 1));
        }
        i += 1;
    }
    proof {
        assert(out.deep_view() =~= row);
    }

    let mut lat = String::new();
    let mut lon = String::new();
    if col < n {
        let chars = str_chars(record[col].as_str());
        proof {
            assert(chars@ == field_at(row, col as int));
        }
        if likely_chars(&chars) {
            match convert_mgrs_to_latlon(record[col].as_str()) {
                Some(p) => {
                    lat = p.0;
                    lon = p.1;
                },
                None => {},
            }
        }
    }
    proof {
        assert((lat@, lon@) == latlon_fields(field_at(row, col as int)));
    }
    out.push(lat);
    out.push(lon);
    proof {
        assert(out.deep_view() =~= transform_row_spec(row, col as int));
    }
    out
}

/// The processed dataset: the augmented headers, every transformed row in
/// input order, and the detected column index.
pub struct ProcessedCsv {
    pub headers: Vec<String>,
    pub rows: Vec<Vec<String>>,
    pub column: usize,
}

/// Runs the whole pipeline over the loaded rows: detects the coordinate
/// column, and on success returns the augmented headers, every transformed
/// row in input order, and the detected column; fails exactly when no
/// column is detected.
#[verifier::loop_isolation(false)]
pub fn process_records(headers: &Vec<String>, records: &Vec<Vec<String>>) -> (r: Result<
    ProcessedCsv,
    PipelineError,
>)
    ensures
        r is Ok <==> detect_spec(records.deep_view()) is Some,
        r matches Ok(out) ==> {
            &&& detect_spec(records.deep_view()) == Some(out.column as int)
            &&& out.headers.deep_view() == output_headers_spec(headers.deep_view())
            &&& out.rows.deep_view() == transform_rows_spec(records.deep_view(), out.column as int)
            &&& out.rows@.len() == records@.len()
        },
        r matches Err(e) ==> e == PipelineError::NoColumnDetected,
{
    let ghost rows = records.deep_view();
    let column = match detect_mgrs_column(records) {
        Some(c) => c,
        None => {
            return Err(PipelineError::NoColumnDetected);
        },
    };

    let mut out_headers: Vec<String> = Vec::new();
    let n = headers.len();
    let mut i: usize = 0;
    while i < n
        invariant
            i <= n,
            n == headers.deep_view().len(),
            out_headers.deep_view() =~= headers.deep_view().take(i as int),
        decreases n - i,
    {
        let h = headers[i].clone();
        proof {
            assert(h@ == headers.deep_view()[i as int]);
        }
        out_headers.push(h);
        proof {
            assert(out_headers.deep_view() =~= headers.deep_view().take(i + 1));
        }
        i += 1;
    }
    proof {
        assert(out_headers.deep_view() =~= headers.deep_view());
    }
    out_headers.push("Latitude".to_owned());
    proof {
        assert(out_headers.deep_view() =~= headers.deep_view().push("Latitude"@));
    }
    out_headers.push("Longitude".to_owned());
    proof {
        assert(out_headers.deep_view() =~= output_headers_spec(headers.deep_view()));
    }

    let m = records.len();
    let mut out_rows: Vec<Vec<String>> = Vec::new();
    let mut ri: usize = 0;
    while ri < m
        invariant
            ri <= m,
            m == rows.len(),
            out_rows.deep_view() =~= transform_rows_spec(rows, column as int).take(ri as int),
        decreases m - ri,
    {
        let out_row = transform_row(&records[ri], column);
        proof {
            assert(records[ri as int].deep_view() == rows[ri as int]);
        }
        out_rows.push(out_row);
        proof {
            assert(out_rows.deep_view() =~= transform_rows_spec(rows, column as int).take(
                ri + 1,
            ));
        }
        ri += 1;
    }
    proof {
        assert(out_rows.deep_view() =~= transform_rows_spec(rows, column as int));
    }
    Ok(ProcessedCsv { headers: out_headers, rows: out_rows, column })
}

/// Running the pipeline twice on the same rows and the same detected column
/// produces identical output: the transformation is a function of its
/// input.
pub proof fn lemma_pipeline_deterministic(
    rows: Seq<Seq<Seq<char>>>,
    col: int,
    out1: Seq<Seq<Seq<char>>>,
    out2: Seq<Seq<Seq<char>>>,
)
    requires
        out1 == transform_rows_spec(rows, col),
        out2 == transform_rows_spec(rows, col),
    ensures
        out1 == out2,
{
}

/// A row whose designated value is missing, empty, whitespace-only,
/// implausible, or rejected by the conversion capability passes every field
/// through unchanged and gets exactly two empty fields appended.
pub proof fn lemma_blank_propagation(row: Seq<Seq<char>>, col: int)
    requires
        !looks_like_mgrs(field_at(row, col)) || converted_value(field_at(row, col)) is None,
    ensures
        transform_row_spec(row, col) == row + seq![
            Seq::<char>::empty(),
            Seq::<char>::empty(),
        ],
{
}

/// Every output row begins with the input row's fields unchanged and has
/// exactly two fields appended, whatever the conversion outcome.
pub proof fn lemma_fields_passed_through(row: Seq<Seq<char>>, col: int)
    ensures
        transform_row_spec(row, col).len() == row.len() + 2,
        forall|i: int| 0 <= i < row.len() ==> transform_row_spec(row, col)[i] == row[i],
{
}

/// A value that is empty or whitespace-only never classifies as plausible:
/// its trimmed form is shorter than any grid reference.
pub proof fn lemma_whitespace_only_not_plausible(f: Seq<char>)
    requires
        crate::chars::trim(f).len() == 0,
    ensures
        !looks_like_mgrs(f),
{
}

} // verus!
