//! The candidate classifier: does a string plausibly look like a grid
//! reference?
//!
//! The pattern is the library's own grammar, stated declaratively by
//! [`pattern_match_at`]: a word-bounded run of one or two zone digits,
//! optional whitespace, a latitude-band letter, optional whitespace, two
//! square-identifier letters, optional whitespace, and two to ten digits of
//! easting/northing, word-bounded at the end. Case-insensitive throughout.
//! The classifier is a cheap pre-filter, not a validator: false positives
//! are re-checked at conversion time.

use vstd::prelude::*;
use crate::chars::is_alpha;
use crate::chars::is_band;
use crate::chars::is_digit;
use crate::chars::is_space;
use crate::chars::is_word;
use crate::chars::alpha;
use crate::chars::band;
use crate::chars::digit;
use crate::chars::space;
use crate::chars::str_chars;
use crate::chars::trim;
use crate::chars::lemma_trim_is_subrange;
use crate::chars::word;

verus! {

/// The grid-reference pattern occurs in `s` starting at `i`, with `p1` the
/// end of the zone digits, `p2` the band letter, `p3` the first square
/// letter, `p4` the start and `p5` the end of the easting/northing digits.
/// Whitespace may separate the groups; the whole run is word-bounded.
pub open spec fn pattern_match_at(
    s: Seq<char>,
    i: int,
    p1: int,
    p2: int,
    p3: int,
    p4: int,
    p5: int,
) -> bool {
    &&& 0 <= i < p1 <= p2 < p3
    &&& p3 + 2 <= p4 < p5 <= s.len()
    &&& p1 - i <= 2
    &&& (forall|k: int| i <= k < p1 ==> is_digit(s[k]))
    &&& (forall|k: int| p1 <= k < p2 ==> is_space(s[k]))
    &&& is_band(s[p2])
    &&& (forall|k: int| p2 + 1 <= k < p3 ==> is_space(s[k]))
    &&& is_alpha(s[p3])
    &&& is_alpha(s[p3 + 1])
    &&& (forall|k: int| p3 + 2 <= k < p4 ==> is_space(s[k]))
    &&& 2 <= p5 - p4 <= 10
    &&& (forall|k: int| p4 <= k < p5 ==> is_digit(s[k]))
    &&& (i == 0 || !is_word(s[i - 1]))
    &&& (p5 == s.len() || !is_word(s[p5]))
}

/// Some occurrence of the pattern starts at position `i`.
pub open spec fn match_starting_at(s: Seq<char>, i: int) -> bool {
    exists|p1: int, p2: int, p3: int, p4: int, p5: int|
        pattern_match_at(s, i, p1, p2, p3, p4, p5)
}

/// The pattern occurs somewhere in `s`.
pub open spec fn has_pattern(s: Seq<char>) -> bool {
    exists|i: int| match_starting_at(s, i)
}

/// The classifier: `s` plausibly looks like a grid reference when its
/// trimmed form has at least seven characters and the pattern occurs in it.
pub open spec fn looks_like_mgrs(s: Seq<char>) -> bool {
    trim(s).len() >= 7 && has_pattern(s)
}

/// The pattern occurs in a string exactly when it occurs in its trimmed
/// form: surrounding whitespace never takes part in an occurrence, and the
/// word boundaries survive the shift.
pub proof fn lemma_has_pattern_trim(s: Seq<char>)
    ensures
        has_pattern(trim(s)) == has_pattern(s),
{
    let (a, b) = crate::chars::trim_bounds(s);
    let t = s.subrange(a, b);
    if has_pattern(t) {
        let i = choose|i: int| match_starting_at(t, i);
        let (p1, p2, p3, p4, p5) = choose|p1: int, p2: int, p3: int, p4: int, p5: int|
            pattern_match_at(t, i, p1, p2, p3, p4, p5);
        assert(pattern_match_at(s, i + a, p1 + a, p2 + a, p3 + a, p4 + a, p5 + a)) by {
            if i == 0 && a > 0 {
                assert(is_space(s[a - 1]));
                crate::chars::lemma_space_not_word(s[a - 1]);
            }
            if p5 == t.len() && b < s.len() {
                assert(is_space(s[b]));
                crate::chars::lemma_space_not_word(s[b]);
            }
            assert forall|k: int| i + a <= k < p1 + a implies is_digit(s[k]) by {
                assert(is_digit(t[k - a]));
            }
            assert forall|k: int| p1 + a <= k < p2 + a implies is_space(s[k]) by {
                assert(is_space(t[k - a]));
            }
            assert forall|k: int| p2 + a + 1 <= k < p3 + a implies is_space(s[k]) by {
                assert(is_space(t[k - a]));
            }
            assert forall|k: int| p3 + a + 2 <= k < p4 + a implies is_space(s[k]) by {
                assert(is_space(t[k - a]));
            }
            assert forall|k: int| p4 + a <= k < p5 + a implies is_digit(s[k]) by {
                assert(is_digit(t[k - a]));
            }
            assert(is_band(t[p2]) && t[p2] == s[p2 + a]);
            assert(is_alpha(t[p3]) && t[p3] == s[p3 + a]);
            assert(is_alpha(t[p3 + 1]) && t[p3 + 1] == s[p3 + a + 1]);
        }
        assert(match_starting_at(s, i + a));
    }
    if has_pattern(s) {
        let i = choose|i: int| match_starting_at(s, i);
        let (p1, p2, p3, p4, p5) = choose|p1: int, p2: int, p3: int, p4: int, p5: int|
            pattern_match_at(s, i, p1, p2, p3, p4, p5);
        // The occurrence starts with a digit and ends with a digit, so it
        // lies entirely inside the trim bounds.
        assert(is_digit(s[i]));
        assert(i >= a) by {
            if i < a {
                assert(is_space(s[i]));
            }
        }
        assert(is_digit(s[p5 - 1]));
        assert(p5 <= b) by {
            if p5 > b {
                assert(is_space(s[p5 - 1]));
            }
        }
        assert(pattern_match_at(t, i - a, p1 - a, p2 - a, p3 - a, p4 - a, p5 - a)) by {
            if i > a {
                assert(t[i - a - 1] == s[i - 1]);
            }
            if p5 < b {
                assert(t[p5 - a] == s[p5]);
            }
            assert forall|k: int| i - a <= k < p1 - a implies is_digit(t[k]) by {
                assert(is_digit(s[k + a]));
            }
            assert forall|k: int| p1 - a <= k < p2 - a implies is_space(t[k]) by {
                assert(is_space(s[k + a]));
            }
            assert forall|k: int| p2 - a + 1 <= k < p3 - a implies is_space(t[k]) by {
                assert(is_space(s[k + a]));
            }
            assert forall|k: int| p3 - a + 2 <= k < p4 - a implies is_space(t[k]) by {
                assert(is_space(s[k + a]));
            }
            assert forall|k: int| p4 - a <= k < p5 - a implies is_digit(t[k]) by {
                assert(is_digit(s[k + a]));
            }
            assert(t[p2 - a] == s[p2]);
            assert(t[p3 - a] == s[p3]);
            assert(t[p3 - a + 1] == s[p3 + 1]);
        }
        assert(match_starting_at(t, i - a));
    }
}

/// The classifier never cares about surrounding whitespace: a value and its
/// trimmed form get the same verdict.
pub proof fn lemma_classifier_trim_agnostic(s: Seq<char>)
    ensures
        looks_like_mgrs(trim(s)) == looks_like_mgrs(s),
{
    crate::chars::lemma_trim_idempotent(s);
    lemma_has_pattern_trim(s);
}

/// If whitespace runs from `from` up to `stop` and no further, then `stop`
/// is the only position at or past `from` that carries a non-whitespace
/// character preceded only by whitespace.
proof fn lemma_first_non_space(s: Seq<char>, from: int, stop: int, p: int)
    requires
        0 <= from <= stop <= s.len(),
        forall|x: int| from <= x < stop ==> is_space(s[x]),
        stop == s.len() || !is_space(s[stop]),
        from <= p < s.len(),
        forall|x: int| from <= x < p ==> is_space(s[x]),
        !is_space(s[p]),
    ensures
        p == stop,
{
    if p < stop {
        assert(is_space(s[p]));
    }
    if p > stop {
        assert(is_space(s[stop]));
    }
}

/// Whether the pattern occurs starting exactly at position `i`.
#[verifier::loop_isolation(false)]
fn match_here(v: &Vec<char>, i: usize) -> (r: bool)
    requires
        i < v@.len(),
    ensures
        r == match_starting_at(v@, i as int),
{
    let ghost s = v@;
    let ghost gi = i as int;
    let n = v.len();

    // Word boundary before the match, and the zone digits.
    if i > 0 && word(v[i - 1]) {
        proof {
            assert forall|p1: int, p2: int, p3: int, p4: int, p5: int|
                !pattern_match_at(s, gi, p1, p2, p3, p4, p5) by {
                if pattern_match_at(s, gi, p1, p2, p3, p4, p5) {
                    assert(!is_word(s[gi - 1]));
                }
            }
        }
        return false;
    }
    if !digit(v[i]) {
        proof {
            assert forall|p1: int, p2: int, p3: int, p4: int, p5: int|
                !pattern_match_at(s, gi, p1, p2, p3, p4, p5) by {
                if pattern_match_at(s, gi, p1, p2, p3, p4, p5) {
                    assert(is_digit(s[gi]));
                }
            }
        }
        return false;
    }
    let mut j = i + 1;
    if j < n && digit(v[j]) {
        j = j + 1;
    }
    // j is the end of the greedily taken zone digits; any witness has p1 == j.
    proof {
        assert forall|p1: int, p2: int, p3: int, p4: int, p5: int|
            pattern_match_at(s, gi, p1, p2, p3, p4, p5) implies p1 == j as int by {
            if p1 != j as int {
                if j == i + 1 {
                    // Only one digit available, yet the witness takes two.
                    assert(p1 == gi + 2);
                    assert(is_digit(s[gi + 1]));
                    assert(gi + 1 < n as int);
                } else {
                    // Two digits available, yet the witness takes one, so the
                    // second digit would have to be whitespace or the band.
                    assert(p1 == gi + 1);
                    assert(is_digit(s[gi + 1]));
                    if p2 == p1 {
                        assert(is_band(s[gi + 1]));
                    } else {
                        assert(is_space(s[gi + 1]));
                    }
                }
            }
        }
    }

    // Whitespace, then the band letter: any witness has p2 == k.
    let mut k = j;
    while k < n && space(v[k])
        invariant
            i < j <= k <= n,
            n == s.len(),
            forall|x: int| j <= x < k ==> is_space(s[x]),
        decreases n - k,
    {
        k += 1;
    }
    if k >= n || !band(v[k]) {
        proof {
            assert forall|p1: int, p2: int, p3: int, p4: int, p5: int|
                !pattern_match_at(s, gi, p1, p2, p3, p4, p5) by {
                if pattern_match_at(s, gi, p1, p2, p3, p4, p5) {
                    assert(!is_space(s[p2]));
                    lemma_first_non_space(s, j as int, k as int, p2);
                }
            }
        }
        return false;
    }

    // Whitespace, then the two square letters: any witness has p3 == m.
    let mut m = k + 1;
    while m < n && space(v[m])
        invariant
            k < m <= n,
            n == s.len(),
            forall|x: int| k + 1 <= x < m ==> is_space(s[x]),
        decreases n - m,
    {
        m += 1;
    }
    if n - m < 2 || !alpha(v[m]) || !alpha(v[m + 1]) {
        proof {
            assert forall|p1: int, p2: int, p3: int, p4: int, p5: int|
                !pattern_match_at(s, gi, p1, p2, p3, p4, p5) by {
                if pattern_match_at(s, gi, p1, p2, p3, p4, p5) {
                    assert(p2 == k as int);
                    assert(!is_space(s[p3]));
                    lemma_first_non_space(s, k as int + 1, m as int, p3);
                }
            }
        }
        return false;
    }

    // Whitespace, then the easting/northing digits: any witness has p4 == q.
    let mut q = m + 2;
    while q < n && space(v[q])
        invariant
            m + 2 <= q <= n,
            n == s.len(),
            forall|x: int| m + 2 <= x < q ==> is_space(s[x]),
        decreases n - q,
    {
        q += 1;
    }
    if q >= n || !digit(v[q]) {
        proof {
            assert forall|p1: int, p2: int, p3: int, p4: int, p5: int|
                !pattern_match_at(s, gi, p1, p2, p3, p4, p5) by {
                if pattern_match_at(s, gi, p1, p2, p3, p4, p5) {
                    assert(p2 == k as int);
                    assert(p3 == m as int);
                    assert(!is_space(s[p4]));
                    assert(is_digit(s[p4]));
                    lemma_first_non_space(s, m as int + 2, q as int, p4);
                }
            }
        }
        return false;
    }
    let mut t = q + 1;
    while t < n && digit(v[t])
        invariant
            q < t <= n,
            n == s.len(),
            forall|x: int| q <= x < t ==> is_digit(s[x]),
            is_digit(s[q as int]),
        decreases n - t,
    {
        t += 1;
    }
    // The digit run is maximal: any witness has p5 == t.
    proof {
        assert forall|p1: int, p2: int, p3: int, p4: int, p5: int|
            pattern_match_at(s, gi, p1, p2, p3, p4, p5) implies p5 == t as int by {
            assert(p2 == k as int);
            assert(p3 == m as int);
            assert(!is_space(s[p4]));
            lemma_first_non_space(s, m as int + 2, q as int, p4);
            if p5 > t as int {
                assert(is_digit(s[t as int]));
            }
            if p5 < t as int {
                assert(is_digit(s[p5]));
                assert(is_word(s[p5]));
            }
        }
    }
    if t - q < 2 || t - q > 10 {
        proof {
            assert forall|p1: int, p2: int, p3: int, p4: int, p5: int|
                !pattern_match_at(s, gi, p1, p2, p3, p4, p5) by {
                if pattern_match_at(s, gi, p1, p2, p3, p4, p5) {
                    assert(p2 == k as int);
                    assert(p3 == m as int);
                    assert(!is_space(s[p4]));
                    lemma_first_non_space(s, m as int + 2, q as int, p4);
                    assert(p4 == q as int && p5 == t as int);
                }
            }
        }
        return false;
    }
    if t < n && word(v[t]) {
        proof {
            assert forall|p1: int, p2: int, p3: int, p4: int, p5: int|
                !pattern_match_at(s, gi, p1, p2, p3, p4, p5) by {
                if pattern_match_at(s, gi, p1, p2, p3, p4, p5) {
                    assert(p5 == t as int);
                    assert(!is_word(s[p5]));
                }
            }
        }
        return false;
    }
    proof {
        assert(pattern_match_at(s, gi, j as int, k as int, m as int, q as int, t as int));
    }
    true
}

/// The classifier on a character vector.
#[verifier::loop_isolation(false)]
pub(crate) fn likely_chars(v: &Vec<char>) -> (r: bool)
    ensures
        r == looks_like_mgrs(v@),
{
    let ghost s = v@;
    let n = v.len();

    // Bounds of the trimmed string.
    let mut a: usize = 0;
    while a < n && space(v[a])
        invariant
            a <= n,
            n == s.len(),
            forall|x: int| 0 <= x < a ==> is_space(s[x]),
        decreases n - a,
    {
        a += 1;
    }
    let mut b: usize = n;
    while b > a && space(v[b - 1])
        invariant
            a <= b <= n,
            n == s.len(),
            forall|x: int| b <= x < n ==> is_space(s[x]),
        decreases b,
    {
        b -= 1;
    }
    proof {
        lemma_trim_is_subrange(s, a as int, b as int);
    }
    if b - a < 7 {
        return false;
    }

    // Scan every start position for the pattern.
    let mut i: usize = 0;
    while i < n
        invariant
            i <= n,
            n == s.len(),
            forall|x: int| 0 <= x < i ==> !match_starting_at(s, x),
            trim(s).len() >= 7,
        decreases n - i,
    {
        if match_here(v, i) {
            proof {
                assert(has_pattern(s));
            }
            return true;
        }
        i += 1;
    }
    proof {
        assert forall|x: int| !match_starting_at(s, x) by {
            if match_starting_at(s, x) {
                let (p1, p2, p3, p4, p5) = choose|p1: int, p2: int, p3: int, p4: int, p5: int|
                    pattern_match_at(s, x, p1, p2, p3, p4, p5);
                assert(0 <= x < n);
            }
        }
        assert(!has_pattern(s));
    }
    false
}

/// Whether a string plausibly looks like a grid coordinate. Deterministic,
/// side-effect free, and intentionally permissive: it checks shape, not
/// validity.
pub fn is_likely_mgrs(value: &str) -> (r: bool)
    ensures
        r == looks_like_mgrs(value@),
{
    let v = str_chars(value);
    likely_chars(&v)
}

} // verus!

