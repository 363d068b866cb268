//! The conversion boundary: a normalized grid-reference string goes to the
//! external grid-math capability and comes back as a latitude/longitude
//! pair in decimal-degree strings, or as a failure.

use vstd::prelude::*;
use crate::chars::is_digit;
use crate::chars::digit;
use crate::chars::str_chars;
use crate::chars::strip_spaces;
use crate::chars::strip_spaces_exec;

verus! {

/// The length of the run of decimal digits at the start of the string.
pub open spec fn leading_digit_run(s: Seq<char>) -> int
    decreases s.len(),
{
    if s.len() > 0 && is_digit(s[0]) {
        1 + leading_digit_run(s.drop_first())
    } else {
        0
    }
}

/// The shape under which the external parser is known to return normally:
/// its zone and easting/northing accumulators are 32-bit, checked only
/// after each accumulation loop. At most nine leading digits keep the zone
/// accumulator in range, and a total length of at most sixteen characters
/// past the leading digits keeps the easting/northing accumulation (at
/// most six digit pairs) in range. Every well-formed grid reference —
/// at most two zone digits, three letters, and ten digits — fits well
/// inside these bounds.
pub open spec fn parse_within_bounds(s: Seq<char>) -> bool {
    leading_digit_run(s) <= 9 && s.len() <= leading_digit_run(s) + 16
}

/// What the external grid-math capability returns for a normalized
/// grid-reference string: the decimal-degree string forms of the latitude
/// and the longitude, or none when the string is not a valid grid
/// reference. The result depends on the string alone.
pub uninterp spec fn mgrs_latlon(s: Seq<char>) -> Option<(Seq<char>, Seq<char>)>;

/// Relies on geoconvert's `Mgrs::parse_str`, `Mgrs::to_latlon`, and
/// `LatLon::latitude`/`LatLon::longitude`: parsing a grid-reference string
/// and projecting it to geographic degrees is a pure function of the
/// string, and `parse_str` returns an error exactly when the string is not
/// a well-formed grid reference. The `requires` keeps out the strings on
/// which the parser's 32-bit digit accumulation could overflow before its
/// own range checks run (see [`parse_within_bounds`]); within it the call
/// returns normally on every input. The intermediate values are
/// double-precision degrees, which cannot cross this boundary, so the
/// wrapper renders them with `f64`'s `Display`, which round-trips the full
/// double precision and never yields an empty string. The projection uses
/// the platform's transcendental functions, so the named result is a fixed
/// function of the string per linked build.
#[verifier::external_body]
fn mgrs_to_latlon_strings(s: &Vec<char>) -> (r: Option<(String, String)>)
    requires
        parse_within_bounds(s@),
    ensures
        r is Some <==> mgrs_latlon(s@) is Some,
        r matches Some(p) ==> {
            &&& mgrs_latlon(s@) == Some((p.0@, p.1@))
            &&& p.0@.len() > 0
            &&& p.1@.len() > 0
        },
{
    let text: String = s.iter().collect();
    match geoconvert::Mgrs::parse_str(&text) {
        Ok(m) => {
            let ll = m.to_latlon();
            Some((ll.latitude().to_string(), ll.longitude().to_string()))
        },
        Err(_) => None,
    }
}

/// The leading digit run reaches exactly to the first non-digit.
proof fn lemma_leading_digit_run_at(s: Seq<char>, d: int)
    requires
        0 <= d <= s.len(),
        forall|k: int| 0 <= k < d ==> is_digit(s[k]),
        d < s.len() ==> !is_digit(s[d]),
    ensures
        leading_digit_run(s) == d,
    decreases d,
{
    if d == 0 {
    } else {
        let t = s.drop_first();
        assert(is_digit(s[0]));
        lemma_leading_digit_run_at(t, d - 1);
    }
}

/// Whether a normalized value lies within the parser's safe shape.
#[verifier::loop_isolation(false)]
fn shape_ok(v: &Vec<char>) -> (r: bool)
    ensures
        r == parse_within_bounds(v@),
{
    let n = v.len();
    let mut d: usize = 0;
    while d < n && digit(v[d])
        invariant
            d <= n,
            n == v@.len(),
            forall|k: int| 0 <= k < d ==> is_digit(v@[k]),
        decreases n - d,
    {
        d += 1;
    }
    proof {
        lemma_leading_digit_run_at(v@, d as int);
    }
    d <= 9 && n - d <= 16
}

/// What converting a raw field value yields: the value is normalized by
/// removing every whitespace character, then handed to the external
/// capability; a normalized value outside the parser's safe shape is
/// rejected outright (no such value is a well-formed grid reference).
pub open spec fn converted_value(f: Seq<char>) -> Option<(Seq<char>, Seq<char>)> {
    if parse_within_bounds(strip_spaces(f)) {
        mgrs_latlon(strip_spaces(f))
    } else {
        None
    }
}

/// Normalizes a candidate value and converts it to a latitude/longitude
/// pair of decimal-degree strings; none when the normalized value is out
/// of shape or the external capability rejects it.
pub fn convert_mgrs_to_latlon(value: &str) -> (r: Option<(String, String)>)
    ensures
        r is Some <==> converted_value(value@) is Some,
        r matches Some(p) ==> {
            &&& converted_value(value@) == Some((p.0@, p.1@))
            &&& p.0@.len() > 0
            &&& p.1@.len() > 0
        },
{
    let v = str_chars(value);
    let normalized = strip_spaces_exec(&v);
    if !shape_ok(&normalized) {
        return None;
    }
    mgrs_to_latlon_strings(&normalized)
}

} // verus!
