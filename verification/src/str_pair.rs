//! A record of one string, read from and written to the textual shape
//! `{"some_str": "..."}`.
//!
//! Reading tolerates whitespace between the tokens; writing produces the one
//! canonical spacing, a single space after the colon.  The round trip law at
//! the end says that writing a record and reading the text back restores the
//! record, for every string free of quotes and backslashes.

use vstd::prelude::*;

use crate::json::closes;
use crate::json::copy_range;
use crate::json::is_plain;
use crate::json::lemma_skip_plain_run;
use crate::json::push_bytes;
use crate::json::range_eq;
use crate::json::scan_string;
use crate::json::skip_ws;
use crate::json::spec_closes;
use crate::json::spec_scan_string;
use crate::json::spec_skip_ws;
use crate::json::spec_starts_non_string;
use crate::json::starts_non_string;
use crate::json::ParseError;
use crate::json::COLON;
use crate::json::LBRACE;
use crate::json::LOWER_E;
use crate::json::LOWER_M;
use crate::json::LOWER_O;
use crate::json::LOWER_R;
use crate::json::LOWER_S;
use crate::json::LOWER_T;
use crate::json::QUOTE;
use crate::json::RBRACE;
use crate::json::SPACE;
use crate::json::UNDERSCORE;

verus! {

/// The bytes of the field name `some_str`.
pub open spec fn key_some_str() -> Seq<u8> {
    seq![LOWER_S, LOWER_O, LOWER_M, LOWER_E, UNDERSCORE, LOWER_S, LOWER_T, LOWER_R]
}

/// The opening of the canonical text, `{"some_str": "`.
pub open spec fn str_open() -> Seq<u8> {
    seq![
        LBRACE,
        QUOTE,
        LOWER_S,
        LOWER_O,
        LOWER_M,
        LOWER_E,
        UNDERSCORE,
        LOWER_S,
        LOWER_T,
        LOWER_R,
        QUOTE,
        COLON,
        SPACE,
        QUOTE,
    ]
}

/// The closing of the canonical text, `"}`.
pub open spec fn str_close() -> Seq<u8> {
    seq![QUOTE, RBRACE]
}

/// What parsing yields on each input: the string between the quotes on the
/// one well-shaped text, a type mismatch when the field holds a value of
/// another JSON type, and a syntax error otherwise.
pub open spec fn spec_parse_str_pair(s: Seq<u8>) -> Result<Seq<u8>, ParseError> {
    let i0 = spec_skip_ws(s, 0);
    if !(i0 < s.len() && s[i0] == LBRACE) {
        Err(ParseError::Syntax)
    } else {
        let i1 = spec_skip_ws(s, i0 + 1);
        match spec_scan_string(s, i1) {
            None => Err(ParseError::Syntax),
            Some(k1) => if s.subrange(i1 + 1, k1 - 1) != key_some_str() {
                Err(ParseError::Syntax)
            } else {
                let i2 = spec_skip_ws(s, k1);
                if !(i2 < s.len() && s[i2] == COLON) {
                    Err(ParseError::Syntax)
                } else {
                    let i3 = spec_skip_ws(s, i2 + 1);
                    match spec_scan_string(s, i3) {
                        None => if spec_starts_non_string(s, i3) {
                            Err(ParseError::TypeMismatch)
                        } else {
                            Err(ParseError::Syntax)
                        },
                        Some(k2) => if spec_closes(s, k2) {
                            Ok(s.subrange(i3 + 1, k2 - 1))
                        } else {
                            Err(ParseError::Syntax)
                        },
                    }
                }
            },
        }
    }
}

/// The canonical text for the string `t`.
pub open spec fn spec_render_str_pair(t: Seq<u8>) -> Seq<u8> {
    str_open() + t + str_close()
}

/// True when every byte of `t` may stand inside a string literal unescaped.
pub open spec fn plain_text(t: Seq<u8>) -> bool {
    forall|i: int| 0 <= i < t.len() ==> is_plain(t[i])
}

/// A record of one string, held as its bytes.
pub struct SerdeExampleStr {
    pub some_str: Vec<u8>,
}

impl View for SerdeExampleStr {
    type V = Seq<u8>;

    open spec fn view(&self) -> Seq<u8> {
        self.some_str@
    }
}

/// A parse result read at the level of the mathematical model.
pub open spec fn str_pair_model(r: Result<SerdeExampleStr, ParseError>) -> Result<
    Seq<u8>,
    ParseError,
> {
    match r {
        Ok(p) => Ok(p@),
        Err(e) => Err(e),
    }
}

/// The field name as a byte vector.
fn key_some_str_vec() -> (v: Vec<u8>)
    ensures
        v@ == key_some_str(),
{
    let mut v: Vec<u8> = Vec::new();
    v.push(LOWER_S);
    v.push(LOWER_O);
    v.push(LOWER_M);
    v.push(LOWER_E);
    v.push(UNDERSCORE);
    v.push(LOWER_S);
    v.push(LOWER_T);
    v.push(LOWER_R);
    proof {
        assert(v@ =~= key_some_str());
    }
    v
}

impl SerdeExampleStr {
    /// Reads a record from the textual shape, exactly as
    /// [`spec_parse_str_pair`] describes.
    pub fn from_json(s: &[u8]) -> (r: Result<SerdeExampleStr, ParseError>)
        ensures
            str_pair_model(r) == spec_parse_str_pair(s@),
    {
        let i0 = skip_ws(s, 0);
        if !(i0 < s.len() && s[i0] == LBRACE) {
            return Err(ParseError::Syntax);
        }
        let i1 = skip_ws(s, i0 + 1);
        let k1 = match scan_string(s, i1) {
            None => {
                return Err(ParseError::Syntax);
            },
            Some(k) => k,
        };
        let key = key_some_str_vec();
        if !range_eq(s, i1 + 1, k1 - 1, key.as_slice()) {
            return Err(ParseError::Syntax);
        }
        let i2 = skip_ws(s, k1);
        if !(i2 < s.len() && s[i2] == COLON) {
            return Err(ParseError::Syntax);
        }
        let i3 = skip_ws(s, i2 + 1);
        let k2 = match scan_string(s, i3) {
            None => {
                if starts_non_string(s, i3) {
                    return Err(ParseError::TypeMismatch);
                } else {
                    return Err(ParseError::Syntax);
                }
            },
            Some(k) => k,
        };
        if !closes(s, k2) {
            return Err(ParseError::Syntax);
        }
        let content = copy_range(s, i3 + 1, k2 - 1);
        Ok(SerdeExampleStr { some_str: content })
    }

    /// Writes the canonical text for this record, exactly
    /// [`spec_render_str_pair`] of its string.
    pub fn to_json(&self) -> (r: Vec<u8>)
        ensures
            r@ == spec_render_str_pair(self@),
    {
        let mut out: Vec<u8> = Vec::new();
        out.push(LBRACE);
        out.push(QUOTE);
        let key = key_some_str_vec();
        push_bytes(&mut out, key.as_slice());
        out.push(QUOTE);
        out.push(COLON);
        out.push(SPACE);
        out.push(QUOTE);
        push_bytes(&mut out, self.some_str.as_slice());
        out.push(QUOTE);
        out.push(RBRACE);
        proof {
            assert(out@ =~= spec_render_str_pair(self@));
        }
        out
    }
}

/// Writing a record and reading the text back restores the record: the
/// canonical text of any string free of quotes and backslashes parses to
/// exactly that string.
pub proof fn lemma_str_pair_round_trip(t: Seq<u8>)
    requires
        plain_text(t),
    ensures
        spec_parse_str_pair(spec_render_str_pair(t)) == Ok::<Seq<u8>, ParseError>(t),
{
    let s = spec_render_str_pair(t);
    let n = t.len() as int;
    assert(s.len() == n + 16);
    assert forall|x: int| 0 <= x < 14 implies s[x] == str_open()[x] by {}
    assert forall|x: int| 14 <= x < 14 + n implies s[x] == t[x - 14] by {}
    assert(s[14 + n] == str_close()[0]);
    assert(s[15 + n] == str_close()[1]);
    assert(spec_skip_ws(s, 0) == 0);
    assert(spec_skip_ws(s, 1) == 1);
    assert forall|x: int| 2 <= x < 10 implies is_plain(s[x]) by {}
    lemma_skip_plain_run(s, 2, 10);
    assert(spec_scan_string(s, 1) == Some(11int));
    assert(s.subrange(2, 10) =~= key_some_str());
    assert(spec_skip_ws(s, 11) == 11);
    assert(spec_skip_ws(s, 12) == spec_skip_ws(s, 13));
    assert(spec_skip_ws(s, 13) == 13);
    assert forall|x: int| 14 <= x < 14 + n implies is_plain(s[x]) by {
        assert(is_plain(t[x - 14]));
    }
    lemma_skip_plain_run(s, 14, 14 + n);
    assert(spec_scan_string(s, 13) == Some(15 + n));
    assert(spec_skip_ws(s, 15 + n) == 15 + n);
    assert(spec_skip_ws(s, 16 + n) == 16 + n);
    assert(spec_closes(s, 15 + n));
    assert(s.subrange(14, 14 + n) =~= t);
}

} // verus!
