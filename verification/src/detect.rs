//! The column detector: scores every column over a bounded prefix sample of
//! the rows and picks the column whose values most often look like grid
//! references.

use vstd::prelude::*;
use crate::classify::is_likely_mgrs;
use crate::classify::looks_like_mgrs;

verus! {

/// How many leading rows the detector samples at most.
pub open spec fn sample_size(rows: Seq<Seq<Seq<char>>>) -> int {
    if rows.len() < 100 {
        rows.len() as int
    } else {
        100
    }
}

/// Row `r` counts towards column `c`: the row has such a column and its
/// value classifies as a plausible grid reference.
pub open spec fn row_hit(rows: Seq<Seq<Seq<char>>>, r: int, c: int) -> bool {
    c < rows[r].len() && looks_like_mgrs(rows[r][c])
}

/// How many of the first `upto` rows count towards column `c`.
pub open spec fn score_upto(rows: Seq<Seq<Seq<char>>>, c: int, upto: int) -> nat
    decreases upto,
{
    if upto <= 0 {
        0
    } else {
        score_upto(rows, c, upto - 1) + if row_hit(rows, upto - 1, c) {
            1nat
        } else {
            0nat
        }
    }
}

/// The score of column `c`: how many sampled rows hold a plausible grid
/// reference in that column.
pub open spec fn col_score(rows: Seq<Seq<Seq<char>>>, c: int) -> nat {
    score_upto(rows, c, sample_size(rows))
}

/// The lowest-index column with the maximal score among the first `upto`
/// columns.
pub open spec fn best_col_upto(rows: Seq<Seq<Seq<char>>>, upto: int) -> int
    decreases upto,
{
    if upto <= 1 {
        0
    } else {
        let b = best_col_upto(rows, upto - 1);
        if col_score(rows, upto - 1) > col_score(rows, b) {
            upto - 1
        } else {
            b
        }
    }
}

/// The detected column: the lowest-index column with the maximal score, or
/// none when there are no rows, no columns, or no column ever scores.
/// The column count is taken from the first row.
pub open spec fn detect_spec(rows: Seq<Seq<Seq<char>>>) -> Option<int> {
    if rows.len() == 0 {
        None
    } else {
        let ncols = rows[0].len() as int;
        if ncols == 0 {
            None
        } else {
            let b = best_col_upto(rows, ncols);
            if col_score(rows, b) > 0 {
                Some(b)
            } else {
                None
            }
        }
    }
}

/// A column's score never exceeds the number of sampled rows.
proof fn lemma_score_upto_bound(rows: Seq<Seq<Seq<char>>>, c: int, upto: int)
    requires
        upto >= 0,
    ensures
        score_upto(rows, c, upto) <= upto,
    decreases upto,
{
    if upto > 0 {
        lemma_score_upto_bound(rows, c, upto - 1);
    }
}

/// The chosen column is in range, carries the maximal score, and every
/// earlier column scores strictly less: ties break to the lowest index.
pub proof fn lemma_best_col_props(rows: Seq<Seq<Seq<char>>>, upto: int)
    requires
        upto >= 1,
    ensures
        0 <= best_col_upto(rows, upto) < upto,
        forall|j: int|
            0 <= j < upto ==> #[trigger] col_score(rows, j) <= col_score(
                rows,
                best_col_upto(rows, upto),
            ),
        forall|j: int|
            0 <= j < best_col_upto(rows, upto) ==> #[trigger] col_score(rows, j) < col_score(
                rows,
                best_col_upto(rows, upto),
            ),
    decreases upto,
{
    if upto > 1 {
        lemma_best_col_props(rows, upto - 1);
    }
}

/// What a detection verdict means. On success the chosen column has a
/// positive, maximal score and the lowest index among the tied maxima; on
/// failure there are no rows or no column scored at all.
pub proof fn lemma_detect_spec_props(rows: Seq<Seq<Seq<char>>>)
    ensures
        detect_spec(rows) matches Some(c) ==> {
            &&& rows.len() > 0
            &&& 0 <= c < rows[0].len()
            &&& col_score(rows, c) > 0
            &&& forall|j: int| 0 <= j < rows[0].len() ==> col_score(rows, j) <= col_score(rows, c)
            &&& forall|j: int| 0 <= j < c ==> col_score(rows, j) < col_score(rows, c)
        },
        detect_spec(rows) is None <==> (rows.len() == 0 || forall|j: int|
            0 <= j < rows[0].len() ==> col_score(rows, j) == 0),
{
    if rows.len() > 0 && rows[0].len() > 0 {
        let ncols = rows[0].len() as int;
        lemma_best_col_props(rows, ncols);
    }
}

/// An input with no data rows never yields a detected column.
pub proof fn lemma_empty_input_detects_nothing(rows: Seq<Seq<Seq<char>>>)
    requires
        rows.len() == 0,
    ensures
        detect_spec(rows) is None,
{
}

/// If exactly one column scores at all over the sample, detection picks
/// that column, wherever it stands.
pub proof fn lemma_unique_positive_column(rows: Seq<Seq<Seq<char>>>, c: int)
    requires
        rows.len() > 0,
        0 <= c < rows[0].len(),
        col_score(rows, c) > 0,
        forall|j: int| 0 <= j < rows[0].len() && j != c ==> col_score(rows, j) == 0,
    ensures
        detect_spec(rows) == Some(c),
{
    let ncols = rows[0].len() as int;
    lemma_best_col_props(rows, ncols);
    let b = best_col_upto(rows, ncols);
    assert(col_score(rows, b) >= col_score(rows, c));
    if b != c {
        assert(col_score(rows, b) == 0);
    }
}

/// Finds the column most likely to hold grid references: scores every
/// column over at most the first hundred rows and returns the lowest-index
/// column with the maximal, nonzero score.
#[verifier::loop_isolation(false)]
pub fn detect_mgrs_column(records: &Vec<Vec<String>>) -> (r: Option<usize>)
    ensures
        r matches Some(c) ==> detect_spec(records.deep_view()) == Some(c as int),
        r is None <==> detect_spec(records.deep_view()) is None,
{
    let ghost rows = records.deep_view();
    proof {
        assert(rows.len() == records@.len());
    }
    if records.len() == 0 {
        return None;
    }
    let ncols = records[0].len();
    proof {
        assert(rows[0].len() == records@[0]@.len());
    }
    if ncols == 0 {
        return None;
    }
    let sample = if records.len() < 100 {
        records.len()
    } else {
        100
    };

    let mut scores: Vec<usize> = Vec::new();
    let mut c: usize = 0;
    while c < ncols
        invariant
            c <= ncols,
            scores@.len() == c,
            forall|x: int| 0 <= x < c ==> scores@[x] == 0,
        decreases ncols - c,
    {
        scores.push(0);
        c += 1;
    }

    let mut ri: usize = 0;
    while ri < sample
        invariant
            ri <= sample,
            scores@.len() == ncols,
            forall|x: int| 0 <= x < ncols ==> scores@[x] == score_upto(rows, x, ri as int),
        decreases sample - ri,
    {
        let row = &records[ri];
        let rlen = row.len();
        proof {
            assert(rows[ri as int].len() == row@.len());
        }
        let mut ci: usize = 0;
        while ci < ncols
            invariant
                ci <= ncols,
                scores@.len() == ncols,
                forall|x: int|
                    0 <= x < ncols ==> scores@[x] == score_upto(rows, x, ri as int) + (if x < ci
                        && row_hit(rows, ri as int, x) {
                        1nat
                    } else {
                        0nat
                    }),
            decreases ncols - ci,
        {
            if ci < rlen {
                proof {
                    assert(rows[ri as int][ci as int] == row@[ci as int]@);
                }
                if is_likely_mgrs(row[ci].as_str()) {
                    proof {
                        lemma_score_upto_bound(rows, ci as int, ri as int);
                    }
                    let old_score = scores[ci];
                    scores.set(ci, old_score + 1);
                }
            }
            ci += 1;
        }
        ri += 1;
    }
    proof {
        assert(sample as int == sample_size(rows));
        assert(forall|x: int| 0 <= x < ncols ==> scores@[x] == col_score(rows, x));
    }

    let mut best: usize = 0;
    let mut best_score = scores[0];
    let mut c2: usize = 1;
    while c2 < ncols
        invariant
            1 <= c2 <= ncols,
            best < c2,
            scores@.len() == ncols,
            best_score == scores@[best as int],
            best as int == best_col_upto(rows, c2 as int),
        decreases ncols - c2,
    {
        if scores[c2] > best_score {
            best = c2;
            best_score = scores[c2];
        }
        c2 += 1;
    }
    if best_score == 0 {
        None
    } else {
        Some(best)
    }
}

} // verus!
