//! Byte-level lexical ground for the JSON-shaped texts the crate reads and
//! writes: byte classes, whitespace and token scanners, and small helpers for
//! comparing and building byte sequences.

use vstd::prelude::*;

verus! {

pub const TAB: u8 = 9;

pub const NEWLINE: u8 = 10;

pub const CARRIAGE: u8 = 13;

pub const SPACE: u8 = 32;

pub const QUOTE: u8 = 34;

pub const COMMA: u8 = 44;

pub const MINUS: u8 = 45;

pub const DOT: u8 = 46;

pub const ZERO: u8 = 48;

pub const NINE: u8 = 57;

pub const COLON: u8 = 58;

pub const LBRACKET: u8 = 91;

pub const BACKSLASH: u8 = 92;

pub const RBRACKET: u8 = 93;

pub const UNDERSCORE: u8 = 95;

pub const LOWER_C: u8 = 99;

pub const LOWER_E: u8 = 101;

pub const LOWER_F: u8 = 102;

pub const LOWER_M: u8 = 109;

pub const LOWER_N: u8 = 110;

pub const LOWER_O: u8 = 111;

pub const LOWER_R: u8 = 114;

pub const LOWER_S: u8 = 115;

pub const LOWER_T: u8 = 116;

pub const LOWER_U: u8 = 117;

pub const LOWER_V: u8 = 118;

pub const LBRACE: u8 = 123;

pub const RBRACE: u8 = 125;

pub const LPAREN: u8 = 40;

pub const RPAREN: u8 = 41;

/// The error a failed parse reports.
#[derive(Clone, Copy, Debug, PartialEq, Eq, Structural)]
pub enum ParseError {
    /// A field was present but its value had the wrong JSON type.
    TypeMismatch,
    /// The text did not match the expected shape at all.
    Syntax,
}

/// True when `b` is a JSON whitespace byte.
pub open spec fn is_ws(b: u8) -> bool {
    b == SPACE || b == TAB || b == NEWLINE || b == CARRIAGE
}

/// True when `b` is an ASCII decimal digit.
pub open spec fn is_digit(b: u8) -> bool {
    ZERO <= b && b <= NINE
}

/// True when `b` may stand inside a string literal without escaping.
pub open spec fn is_plain(b: u8) -> bool {
    b != QUOTE && b != BACKSLASH
}

/// Index of the first byte at or after `i` that is not whitespace
/// (the length of `s` if every later byte is whitespace).
pub open spec fn spec_skip_ws(s: Seq<u8>, i: int) -> int
    decreases s.len() - i,
{
    if 0 <= i && i < s.len() && is_ws(s[i]) {
        spec_skip_ws(s, i + 1)
    } else {
        i
    }
}

/// Index of the first byte at or after `i` that is not a digit.
pub open spec fn spec_skip_digits(s: Seq<u8>, i: int) -> int
    decreases s.len() - i,
{
    if 0 <= i && i < s.len() && is_digit(s[i]) {
        spec_skip_digits(s, i + 1)
    } else {
        i
    }
}

/// Index of the first byte at or after `i` that cannot stand inside a string
/// literal, that is, the first quote or backslash.
pub open spec fn spec_skip_plain(s: Seq<u8>, i: int) -> int
    decreases s.len() - i,
{
    if 0 <= i && i < s.len() && is_plain(s[i]) {
        spec_skip_plain(s, i + 1)
    } else {
        i
    }
}

/// A run of plain bytes ending at a non-plain byte (or at the end of the
/// text) is exactly what [`spec_skip_plain`] walks over.
pub proof fn lemma_skip_plain_run(s: Seq<u8>, i: int, j: int)
    requires
        0 <= i <= j <= s.len(),
        forall|x: int| i <= x < j ==> is_plain(s[x]),
        j == s.len() || !is_plain(s[j]),
    ensures
        spec_skip_plain(s, i) == j,
    decreases j - i,
{
    if i < j {
        assert(is_plain(s[i]));
        lemma_skip_plain_run(s, i + 1, j);
    }
}

/// A run of digits ending at a non-digit byte (or at the end of the text) is
/// exactly what [`spec_skip_digits`] walks over.
pub proof fn lemma_skip_digits_run(s: Seq<u8>, i: int, j: int)
    requires
        0 <= i <= j <= s.len(),
        forall|x: int| i <= x < j ==> is_digit(s[x]),
        j == s.len() || !is_digit(s[j]),
    ensures
        spec_skip_digits(s, i) == j,
    decreases j - i,
{
    if i < j {
        assert(is_digit(s[i]));
        lemma_skip_digits_run(s, i + 1, j);
    }
}

/// Every byte that [`spec_skip_digits`] walks over is a digit.
pub proof fn lemma_skip_digits_all(s: Seq<u8>, i: int)
    requires
        0 <= i <= s.len(),
    ensures
        forall|x: int| i <= x < spec_skip_digits(s, i) ==> is_digit(s[x]),
        i <= spec_skip_digits(s, i) <= s.len(),
    decreases s.len() - i,
{
    if i < s.len() && is_digit(s[i]) {
        lemma_skip_digits_all(s, i + 1);
    }
}

/// End of the number token starting at `i`: an optional minus sign, one or
/// more digits, and an optional fraction of a dot followed by one or more
/// digits.  `None` when no such token starts at `i`.
pub open spec fn spec_scan_number(s: Seq<u8>, i: int) -> Option<int> {
    let j = if 0 <= i && i < s.len() && s[i] == MINUS {
        i + 1
    } else {
        i
    };
    let k = spec_skip_digits(s, j);
    if k == j {
        None
    } else if k < s.len() && s[k] == DOT {
        let m = spec_skip_digits(s, k + 1);
        if m == k + 1 {
            None
        } else {
            Some(m)
        }
    } else {
        Some(k)
    }
}

/// True when `t` is, in its entirety, one well-formed number token: an
/// optional minus sign, one or more digits, and an optional fraction of a
/// dot followed by one or more digits.
pub open spec fn is_number_token(t: Seq<u8>) -> bool {
    let j: int = if t.len() > 0 && t[0] == MINUS {
        1
    } else {
        0
    };
    let k = spec_skip_digits(t, j);
    &&& k > j
    &&& (k == t.len() || (t[k] == DOT && k + 1 < t.len() && spec_skip_digits(t, k + 1)
        == t.len()))
}

/// Scanning a text in which a whole number token sits at `i`, with no digit
/// and no dot right after it, finds exactly that token.
pub proof fn lemma_scan_number_token(s: Seq<u8>, i: int, t: Seq<u8>)
    requires
        0 <= i,
        i + t.len() <= s.len(),
        s.subrange(i, i + t.len()) == t,
        is_number_token(t),
        i + t.len() == s.len() || (!is_digit(s[i + t.len()]) && s[i + t.len()] != DOT),
    ensures
        spec_scan_number(s, i) == Some(i + t.len()),
{
    let n = t.len() as int;
    assert forall|x: int| i <= x < i + n implies s[x] == t[x - i] by {
        assert(s.subrange(i, i + n)[x - i] == s[x]);
    }
    let j: int = if t[0] == MINUS {
        1
    } else {
        0
    };
    let k = spec_skip_digits(t, j);
    lemma_skip_digits_all(t, j);
    assert(s[i] == t[0]);
    assert forall|x: int| i + j <= x < i + k implies is_digit(s[x]) by {
        assert(is_digit(t[x - i]));
        assert(s[x] == t[x - i]);
    }
    if k == n {
        lemma_skip_digits_run(s, i + j, i + k);
        assert(spec_scan_number(s, i) == Some(i + k));
    } else {
        assert(t[k] == DOT && !is_digit(t[k]));
        assert(s[i + k] == t[k]);
        lemma_skip_digits_run(s, i + j, i + k);
        lemma_skip_digits_all(t, k + 1);
        assert forall|x: int| i + k + 1 <= x < i + n implies is_digit(s[x]) by {
            assert(is_digit(t[x - i]));
            assert(s[x] == t[x - i]);
        }
        assert(s[i + k] == DOT);
        lemma_skip_digits_run(s, i + k + 1, i + n);
        assert(spec_scan_number(s, i) == Some(i + n));
    }
}

/// Index just past the closing quote of the string token starting at `i`,
/// or `None` when no unescaped string token starts there.
pub open spec fn spec_scan_string(s: Seq<u8>, i: int) -> Option<int> {
    if 0 <= i && i < s.len() && s[i] == QUOTE {
        let j = spec_skip_plain(s, i + 1);
        if j < s.len() && s[j] == QUOTE {
            Some(j + 1)
        } else {
            None
        }
    } else {
        None
    }
}

/// True when, from `i` on, the text holds only a closing brace between
/// whitespace: the way every object of this crate ends.
pub open spec fn spec_closes(s: Seq<u8>, i: int) -> bool {
    let j = spec_skip_ws(s, i);
    &&& j < s.len()
    &&& s[j] == RBRACE
    &&& spec_skip_ws(s, j + 1) == s.len()
}

/// True when a JSON value other than a number starts at `i`: a string, an
/// object, an array, or a literal word (`true`, `false`, `null`).
pub open spec fn spec_starts_non_number(s: Seq<u8>, i: int) -> bool {
    0 <= i && i < s.len() && (s[i] == QUOTE || s[i] == LBRACE || s[i] == LBRACKET || s[i] == LOWER_T
        || s[i] == LOWER_F || s[i] == LOWER_N)
}

/// True when a JSON value other than an array starts at `i`.
pub open spec fn spec_starts_non_array(s: Seq<u8>, i: int) -> bool {
    0 <= i && i < s.len() && (is_digit(s[i]) || s[i] == MINUS || s[i] == QUOTE || s[i] == LBRACE
        || s[i] == LOWER_T || s[i] == LOWER_F || s[i] == LOWER_N)
}

/// True when a JSON value other than a string starts at `i`.
pub open spec fn spec_starts_non_string(s: Seq<u8>, i: int) -> bool {
    0 <= i && i < s.len() && (is_digit(s[i]) || s[i] == MINUS || s[i] == LBRACE || s[i] == LBRACKET
        || s[i] == LOWER_T || s[i] == LOWER_F || s[i] == LOWER_N)
}

/// An [`Option<usize>`] read as an option over mathematical integers.
pub open spec fn opt_int(r: Option<usize>) -> Option<int> {
    match r {
        Some(u) => Some(u as int),
        None => None,
    }
}

/// Runtime check for [`is_ws`].
pub fn ws_byte(b: u8) -> (r: bool)
    ensures
        r == is_ws(b),
{
    b == SPACE || b == TAB || b == NEWLINE || b == CARRIAGE
}

/// Runtime check for [`is_digit`].
pub fn digit_byte(b: u8) -> (r: bool)
    ensures
        r == is_digit(b),
{
    ZERO <= b && b <= NINE
}

/// Runtime check for [`is_plain`].
pub fn plain_byte(b: u8) -> (r: bool)
    ensures
        r == is_plain(b),
{
    b != QUOTE && b != BACKSLASH
}

/// Walks past whitespace, as [`spec_skip_ws`] describes.
pub fn skip_ws(s: &[u8], i: usize) -> (r: usize)
    requires
        i <= s@.len(),
    ensures
        r as int == spec_skip_ws(s@, i as int),
        i <= r <= s@.len(),
{
    let mut j = i;
    while j < s.len() && ws_byte(s[j])
        invariant
            i <= j <= s@.len(),
            spec_skip_ws(s@, i as int) == spec_skip_ws(s@, j as int),
        decreases s@.len() - j,
    {
        assert(spec_skip_ws(s@, j as int) == spec_skip_ws(s@, j + 1));
        j = j + 1;
    }
    assert(spec_skip_ws(s@, j as int) == j);
    j
}

/// Walks past digits, as [`spec_skip_digits`] describes.
pub fn skip_digits(s: &[u8], i: usize) -> (r: usize)
    requires
        i <= s@.len(),
    ensures
        r as int == spec_skip_digits(s@, i as int),
        i <= r <= s@.len(),
{
    let mut j = i;
    while j < s.len() && digit_byte(s[j])
        invariant
            i <= j <= s@.len(),
            spec_skip_digits(s@, i as int) == spec_skip_digits(s@, j as int),
        decreases s@.len() - j,
    {
        assert(spec_skip_digits(s@, j as int) == spec_skip_digits(s@, j + 1));
        j = j + 1;
    }
    assert(spec_skip_digits(s@, j as int) == j);
    j
}

/// Walks past plain string bytes, as [`spec_skip_plain`] describes.
pub fn skip_plain(s: &[u8], i: usize) -> (r: usize)
    requires
        i <= s@.len(),
    ensures
        r as int == spec_skip_plain(s@, i as int),
        i <= r <= s@.len(),
{
    let mut j = i;
    while j < s.len() && plain_byte(s[j])
        invariant
            i <= j <= s@.len(),
            spec_skip_plain(s@, i as int) == spec_skip_plain(s@, j as int),
        decreases s@.len() - j,
    {
        assert(spec_skip_plain(s@, j as int) == spec_skip_plain(s@, j + 1));
        j = j + 1;
    }
    assert(spec_skip_plain(s@, j as int) == j);
    j
}

/// Scans the number token starting at `i`, as [`spec_scan_number`] describes.
pub fn scan_number(s: &[u8], i: usize) -> (r: Option<usize>)
    requires
        i <= s@.len(),
    ensures
        opt_int(r) == spec_scan_number(s@, i as int),
        r matches Some(e) ==> i < e <= s@.len(),
{
    let j = if i < s.len() && s[i] == MINUS {
        i + 1
    } else {
        i
    };
    let k = skip_digits(s, j);
    if k == j {
        None
    } else if k < s.len() && s[k] == DOT {
        let m = skip_digits(s, k + 1);
        if m == k + 1 {
            None
        } else {
            Some(m)
        }
    } else {
        Some(k)
    }
}

/// Scans the string token starting at `i`, as [`spec_scan_string`] describes.
pub fn scan_string(s: &[u8], i: usize) -> (r: Option<usize>)
    requires
        i <= s@.len(),
    ensures
        opt_int(r) == spec_scan_string(s@, i as int),
        r matches Some(e) ==> i + 2 <= e <= s@.len(),
{
    if i < s.len() && s[i] == QUOTE {
        let j = skip_plain(s, i + 1);
        if j < s.len() && s[j] == QUOTE {
            Some(j + 1)
        } else {
            None
        }
    } else {
        None
    }
}

/// Runtime check for [`spec_closes`].
pub fn closes(s: &[u8], i: usize) -> (r: bool)
    requires
        i <= s@.len(),
    ensures
        r == spec_closes(s@, i as int),
{
    let j = skip_ws(s, i);
    if j < s.len() && s[j] == RBRACE {
        let k = skip_ws(s, j + 1);
        k == s.len()
    } else {
        false
    }
}

/// Runtime check for [`spec_starts_non_number`].
pub fn starts_non_number(s: &[u8], i: usize) -> (r: bool)
    ensures
        r == spec_starts_non_number(s@, i as int),
{
    i < s.len() && (s[i] == QUOTE || s[i] == LBRACE || s[i] == LBRACKET || s[i] == LOWER_T || s[i]
        == LOWER_F || s[i] == LOWER_N)
}

/// Runtime check for [`spec_starts_non_array`].
pub fn starts_non_array(s: &[u8], i: usize) -> (r: bool)
    ensures
        r == spec_starts_non_array(s@, i as int),
{
    i < s.len() && (digit_byte(s[i]) || s[i] == MINUS || s[i] == QUOTE || s[i] == LBRACE || s[i]
        == LOWER_T || s[i] == LOWER_F || s[i] == LOWER_N)
}

/// Runtime check for [`spec_starts_non_string`].
pub fn starts_non_string(s: &[u8], i: usize) -> (r: bool)
    ensures
        r == spec_starts_non_string(s@, i as int),
{
    i < s.len() && (digit_byte(s[i]) || s[i] == MINUS || s[i] == LBRACE || s[i] == LBRACKET || s[i]
        == LOWER_T || s[i] == LOWER_F || s[i] == LOWER_N)
}

/// True when the bytes of `s` between `a` and `b` are exactly `t`.
pub fn range_eq(s: &[u8], a: usize, b: usize, t: &[u8]) -> (r: bool)
    requires
        a <= b <= s@.len(),
    ensures
        r == (s@.subrange(a as int, b as int) == t@),
{
    if b - a != t.len() {
        assert(s@.subrange(a as int, b as int).len() != t@.len());
        return false;
    }
    let mut k: usize = 0;
    while k < t.len()
        invariant
            0 <= k <= t@.len(),
            b - a == t@.len(),
            a <= b <= s@.len(),
            forall|x: int| 0 <= x < k ==> s@[a + x] == t@[x],
        decreases t@.len() - k,
    {
        if s[a + k] != t[k] {
            assert(s@.subrange(a as int, b as int)[k as int] != t@[k as int]);
            return false;
        }
        k = k + 1;
    }
    proof {
        assert(s@.subrange(a as int, b as int) =~= t@);
    }
    true
}

/// Appends every byte of `t` to `out`.
pub fn push_bytes(out: &mut Vec<u8>, t: &[u8])
    ensures
        final(out)@ == old(out)@ + t@,
{
    let mut k: usize = 0;
    while k < t.len()
        invariant
            0 <= k <= t@.len(),
            out@ == old(out)@ + t@.subrange(0, k as int),
        decreases t@.len() - k,
    {
        out.push(t[k]);
        k = k + 1;
        proof {
            assert(out@ =~= old(out)@ + t@.subrange(0, k as int));
        }
    }
    proof {
        assert(old(out)@ + t@.subrange(0, t@.len() as int) =~= old(out)@ + t@);
    }
}

/// Copies the bytes of `s` between `a` and `b` into a fresh vector.
pub fn copy_range(s: &[u8], a: usize, b: usize) -> (r: Vec<u8>)
    requires
        a <= b <= s@.len(),
    ensures
        r@ == s@.subrange(a as int, b as int),
{
    let mut out: Vec<u8> = Vec::new();
    let mut k: usize = a;
    while k < b
        invariant
            a <= k <= b <= s@.len(),
            out@ == s@.subrange(a as int, k as int),
        decreases b - k,
    {
        out.push(s[k]);
        k = k + 1;
        proof {
            assert(out@ =~= s@.subrange(a as int, k as int));
        }
    }
    out
}

} // verus!
