//! Character classes and whitespace handling for grid-reference strings.
//!
//! Every definition here is over `Seq<char>` views; the executable
//! counterparts are proved to agree with the specifications exactly.

use vstd::prelude::*;
use vstd::string::StrSliceExecFns;

verus! {

/// A decimal digit, `0` through `9`.
pub open spec fn is_digit(c: char) -> bool {
    48 <= c as u32 && c as u32 <= 57
}

/// An ASCII letter, either case.
pub open spec fn is_alpha(c: char) -> bool {
    (65 <= c as u32 && c as u32 <= 90) || (97 <= c as u32 && c as u32 <= 122)
}

/// A latitude-band letter: `C` through `X`, either case, excluding the
/// ambiguous letters `I` and `O` that the grid system never uses.
pub open spec fn is_band(c: char) -> bool {
    ||| (67 <= c as u32 && c as u32 <= 88 && c as u32 != 73 && c as u32 != 79)
    ||| (99 <= c as u32 && c as u32 <= 120 && c as u32 != 105 && c as u32 != 111)
}

/// A word character for the purpose of word boundaries: a letter, a digit,
/// or an underscore.
pub open spec fn is_word(c: char) -> bool {
    is_digit(c) || is_alpha(c) || c as u32 == 95
}

/// A whitespace character: the Unicode `White_Space` set.
pub open spec fn is_space(c: char) -> bool {
    ||| (9 <= c as u32 && c as u32 <= 13)
    ||| c as u32 == 32
    ||| c as u32 == 0x85
    ||| c as u32 == 0xA0
    ||| c as u32 == 0x1680
    ||| (0x2000 <= c as u32 && c as u32 <= 0x200A)
    ||| c as u32 == 0x2028
    ||| c as u32 == 0x2029
    ||| c as u32 == 0x202F
    ||| c as u32 == 0x205F
    ||| c as u32 == 0x3000
}

pub fn digit(c: char) -> (r: bool)
    ensures
        r == is_digit(c),
{
    48 <= c as u32 && c as u32 <= 57
}

pub fn alpha(c: char) -> (r: bool)
    ensures
        r == is_alpha(c),
{
    (65 <= c as u32 && c as u32 <= 90) || (97 <= c as u32 && c as u32 <= 122)
}

pub fn band(c: char) -> (r: bool)
    ensures
        r == is_band(c),
{
    let u = c as u32;
    (67 <= u && u <= 88 && u != 73 && u != 79) || (99 <= u && u <= 120 && u != 105 && u != 111)
}

pub fn word(c: char) -> (r: bool)
    ensures
        r == is_word(c),
{
    digit(c) || alpha(c) || c as u32 == 95
}

pub fn space(c: char) -> (r: bool)
    ensures
        r == is_space(c),
{
    let u = c as u32;
    (9 <= u && u <= 13) || u == 32 || u == 0x85 || u == 0xA0 || u == 0x1680 || (0x2000 <= u && u
        <= 0x200A) || u == 0x2028 || u == 0x2029 || u == 0x202F || u == 0x205F || u == 0x3000
}

/// The string with its leading whitespace removed.
pub open spec fn trim_start(s: Seq<char>) -> Seq<char>
    decreases s.len(),
{
    if s.len() > 0 && is_space(s[0]) {
        trim_start(s.drop_first())
    } else {
        s
    }
}

/// The string with its trailing whitespace removed.
pub open spec fn trim_end(s: Seq<char>) -> Seq<char>
    decreases s.len(),
{
    if s.len() > 0 && is_space(s.last()) {
        trim_end(s.drop_last())
    } else {
        s
    }
}

/// The string with surrounding whitespace removed.
pub open spec fn trim(s: Seq<char>) -> Seq<char> {
    trim_end(trim_start(s))
}

/// The string with every whitespace character removed.
pub open spec fn strip_spaces(s: Seq<char>) -> Seq<char>
    decreases s.len(),
{
    if s.len() == 0 {
        Seq::empty()
    } else if is_space(s[0]) {
        strip_spaces(s.drop_first())
    } else {
        seq![s[0]] + strip_spaces(s.drop_first())
    }
}

proof fn lemma_trim_start_at(s: Seq<char>, a: int)
    requires
        0 <= a <= s.len(),
        forall|k: int| 0 <= k < a ==> is_space(s[k]),
        a < s.len() ==> !is_space(s[a]),
    ensures
        trim_start(s) == s.subrange(a, s.len() as int),
    decreases a,
{
    if a == 0 {
        assert(s.subrange(0, s.len() as int) =~= s);
    } else {
        let t = s.drop_first();
        assert(is_space(s[0]));
        lemma_trim_start_at(t, a - 1);
        assert(t.subrange(a - 1, t.len() as int) =~= s.subrange(a, s.len() as int));
    }
}

proof fn lemma_trim_end_at(s: Seq<char>, b: int)
    requires
        0 <= b <= s.len(),
        forall|k: int| b <= k < s.len() ==> is_space(s[k]),
        b > 0 ==> !is_space(s[b - 1]),
    ensures
        trim_end(s) == s.subrange(0, b),
    decreases s.len() - b,
{
    if b == s.len() {
        if s.len() > 0 {
            assert(!is_space(s.last()));
        }
        assert(s.subrange(0, b) =~= s);
    } else {
        let t = s.drop_last();
        assert(is_space(s.last()));
        lemma_trim_end_at(t, b);
        assert(t.subrange(0, b) =~= s.subrange(0, b));
    }
}

/// The trimmed string is the subrange between the first and last
/// non-whitespace characters.
pub proof fn lemma_trim_is_subrange(s: Seq<char>, a: int, b: int)
    requires
        0 <= a <= b <= s.len(),
        forall|k: int| 0 <= k < a ==> is_space(s[k]),
        forall|k: int| b <= k < s.len() ==> is_space(s[k]),
        a < s.len() ==> !is_space(s[a]),
        b > a ==> !is_space(s[b - 1]),
    ensures
        trim(s) == s.subrange(a, b),
{
    lemma_trim_start_at(s, a);
    let t = s.subrange(a, s.len() as int);
    lemma_trim_end_at(t, b - a);
    assert(t.subrange(0, b - a) =~= s.subrange(a, b));
}

proof fn trim_start_index(s: Seq<char>) -> (a: int)
    ensures
        0 <= a <= s.len(),
        forall|k: int| 0 <= k < a ==> is_space(s[k]),
        a < s.len() ==> !is_space(s[a]),
    decreases s.len(),
{
    if s.len() > 0 && is_space(s[0]) {
        let t = s.drop_first();
        let a0 = trim_start_index(t);
        assert forall|k: int| 0 <= k < a0 + 1 implies is_space(s[k]) by {
            if k > 0 {
                assert(is_space(t[k - 1]));
            }
        }
        a0 + 1
    } else {
        0
    }
}

proof fn trim_end_index(s: Seq<char>) -> (b: int)
    ensures
        0 <= b <= s.len(),
        forall|k: int| b <= k < s.len() ==> is_space(s[k]),
        b > 0 ==> !is_space(s[b - 1]),
    decreases s.len(),
{
    if s.len() > 0 && is_space(s.last()) {
        let t = s.drop_last();
        let b0 = trim_end_index(t);
        assert forall|k: int| b0 <= k < s.len() implies is_space(s[k]) by {
            if k < s.len() - 1 {
                assert(is_space(t[k]));
            }
        }
        b0
    } else {
        s.len() as int
    }
}

/// Every string has trim bounds: positions `a` and `b` such that the
/// characters outside `[a, b)` are exactly the surrounding whitespace.
pub proof fn trim_bounds(s: Seq<char>) -> (r: (int, int))
    ensures
        0 <= r.0 <= r.1 <= s.len(),
        forall|k: int| 0 <= k < r.0 ==> is_space(s[k]),
        forall|k: int| r.1 <= k < s.len() ==> is_space(s[k]),
        r.0 < s.len() ==> !is_space(s[r.0]),
        r.1 > r.0 ==> !is_space(s[r.1 - 1]),
        trim(s) == s.subrange(r.0, r.1),
{
    let a = trim_start_index(s);
    let b = trim_end_index(s);
    if a == s.len() {
        // All whitespace: the trimmed string is empty.
        lemma_trim_is_subrange(s, a, a);
        (a, a)
    } else {
        assert(!is_space(s[a]));
        assert(b > a) by {
            if b <= a {
                assert(is_space(s[a]));
            }
        }
        lemma_trim_is_subrange(s, a, b);
        (a, b)
    }
}

/// Trimming an already trimmed string changes nothing.
pub proof fn lemma_trim_idempotent(s: Seq<char>)
    ensures
        trim(trim(s)) == trim(s),
{
    let (a, b) = trim_bounds(s);
    let t = s.subrange(a, b);
    lemma_trim_is_subrange(t, 0, t.len() as int);
    assert(t.subrange(0, t.len() as int) =~= t);
}

/// A whitespace character is never a word character.
pub proof fn lemma_space_not_word(c: char)
    ensures
        is_space(c) ==> !is_word(c),
{
}

/// The characters of a string, as a vector.
#[verifier::loop_isolation(false)]
pub fn str_chars(s: &str) -> (v: Vec<char>)
    ensures
        v@ == s@,
{
    let n = s.unicode_len();
    let mut v: Vec<char> = Vec::new();
    let mut i: usize = 0;
    while i < n
        invariant
            i <= n,
            n == s@.len(),
            v@ == s@.take(i as int),
        decreases n - i,
    {
        let c = s.get_char(i);
        v.push(c);
        proof {
            assert(v@ =~= s@.take(i + 1));
        }
        i += 1;
    }
    proof {
        assert(v@ =~= s@);
    }
    v
}

proof fn lemma_strip_spaces_step(s: Seq<char>, i: int)
    requires
        0 <= i < s.len(),
    ensures
        strip_spaces(s.skip(i)) == if is_space(s[i]) {
            strip_spaces(s.skip(i + 1))
        } else {
            seq![s[i]] + strip_spaces(s.skip(i + 1))
        },
{
    let t = s.skip(i);
    assert(t.len() > 0);
    assert(t[0] == s[i]);
    assert(t.drop_first() =~= s.skip(i + 1));
}

/// The string with every whitespace character removed, as a vector.
#[verifier::loop_isolation(false)]
pub fn strip_spaces_exec(v: &Vec<char>) -> (out: Vec<char>)
    ensures
        out@ == strip_spaces(v@),
{
    let n = v.len();
    let mut out: Vec<char> = Vec::new();
    let mut i: usize = 0;
    proof {
        assert(v@.skip(0) =~= v@);
    }
    while i < n
        invariant
            i <= n,
            n == v@.len(),
            out@ + strip_spaces(v@.skip(i as int)) == strip_spaces(v@),
        decreases n - i,
    {
        proof {
            lemma_strip_spaces_step(v@, i as int);
        }
        if !space(v[i]) {
            out.push(v[i]);
        }
        i += 1;
    }
    proof {
        assert(v@.skip(n as int) =~= Seq::<char>::empty());
        assert(out@ + Seq::<char>::empty() =~= out@);
    }
    out
}

} // verus!
