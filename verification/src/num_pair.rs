//! A record of one number and an ordered sequence of numbers, read from and
//! written to the textual shape `{"some_num": 32.0, "some_vec": [1.0, 2.0]}`,
//! and rendered for display as `(32.0, [1.0, 2.0])`.
//!
//! Numbers are held as their decimal tokens, byte for byte, so the verified
//! library never computes with floating point; a caller who wants the numeric
//! value parses the token at the boundary.  Reading tolerates whitespace
//! between tokens; writing produces one canonical spacing.

use vstd::prelude::*;

use crate::json::closes;
use crate::json::copy_range;
use crate::json::is_digit;
use crate::json::is_number_token;
use crate::json::is_plain;
use crate::json::is_ws;
use crate::json::lemma_scan_number_token;
use crate::json::lemma_skip_digits_all;
use crate::json::lemma_skip_plain_run;
use crate::json::push_bytes;
use crate::json::range_eq;
use crate::json::scan_number;
use crate::json::scan_string;
use crate::json::skip_ws;
use crate::json::spec_closes;
use crate::json::spec_scan_number;
use crate::json::spec_scan_string;
use crate::json::spec_skip_ws;
use crate::json::spec_starts_non_array;
use crate::json::spec_starts_non_number;
use crate::json::starts_non_array;
use crate::json::starts_non_number;
use crate::json::ParseError;
use crate::json::COLON;
use crate::json::COMMA;
use crate::json::LBRACE;
use crate::json::LBRACKET;
use crate::json::DOT;
use crate::json::LOWER_C;
use crate::json::LOWER_E;
use crate::json::LOWER_M;
use crate::json::LOWER_N;
use crate::json::LOWER_O;
use crate::json::LOWER_S;
use crate::json::LOWER_U;
use crate::json::LOWER_V;
use crate::json::LPAREN;
use crate::json::MINUS;
use crate::json::QUOTE;
use crate::json::RBRACE;
use crate::json::RBRACKET;
use crate::json::RPAREN;
use crate::json::SPACE;
use crate::json::UNDERSCORE;

verus! {

/// The bytes of the field name `some_num`.
pub open spec fn key_some_num() -> Seq<u8> {
    seq![LOWER_S, LOWER_O, LOWER_M, LOWER_E, UNDERSCORE, LOWER_N, LOWER_U, LOWER_M]
}

/// The bytes of the field name `some_vec`.
pub open spec fn key_some_vec() -> Seq<u8> {
    seq![LOWER_S, LOWER_O, LOWER_M, LOWER_E, UNDERSCORE, LOWER_V, LOWER_E, LOWER_C]
}

/// The mathematical content of a record: the number token and the sequence
/// of element tokens.
pub struct PairModel {
    pub some_num: Seq<u8>,
    pub some_vec: Seq<Seq<u8>>,
}

/// A record of one number and a sequence of numbers, each held as its
/// decimal token.
pub struct SerdeExample {
    pub some_num: Vec<u8>,
    pub some_vec: Vec<Vec<u8>>,
}

impl View for SerdeExample {
    type V = PairModel;

    open spec fn view(&self) -> PairModel {
        PairModel { some_num: self.some_num@, some_vec: self.some_vec.deep_view() }
    }
}

/// Parses the opening of the text up to and including the `some_num` value:
/// `{ "some_num" : <number>`.  Yields the number token and the position just
/// past it.
pub open spec fn spec_parse_head(s: Seq<u8>) -> Result<(Seq<u8>, int), ParseError> {
    let i0 = spec_skip_ws(s, 0);
    if !(i0 < s.len() && s[i0] == LBRACE) {
        Err(ParseError::Syntax)
    } else {
        let i1 = spec_skip_ws(s, i0 + 1);
        match spec_scan_string(s, i1) {
            None => Err(ParseError::Syntax),
            Some(k1) => if s.subrange(i1 + 1, k1 - 1) != key_some_num() {
                Err(ParseError::Syntax)
            } else {
                let i2 = spec_skip_ws(s, k1);
                if !(i2 < s.len() && s[i2] == COLON) {
                    Err(ParseError::Syntax)
                } else {
                    let i3 = spec_skip_ws(s, i2 + 1);
                    match spec_scan_number(s, i3) {
                        None => if spec_starts_non_number(s, i3) {
                            Err(ParseError::TypeMismatch)
                        } else {
                            Err(ParseError::Syntax)
                        },
                        Some(k2) => Ok((s.subrange(i3, k2), k2)),
                    }
                }
            },
        }
    }
}

/// Parses a non-empty, comma-separated list of number tokens followed by the
/// closing bracket, starting at `i` with leading whitespace already skipped.
/// Yields the tokens and the position just past the bracket.
///
/// The bounds check before the recursive call is what termination rests on;
/// every caller reaches the call with the bounds already established.
pub open spec fn spec_parse_elems(s: Seq<u8>, i: int) -> Result<(Seq<Seq<u8>>, int), ParseError>
    decreases s.len() - i,
{
    match spec_scan_number(s, i) {
        None => if spec_starts_non_number(s, i) {
            Err(ParseError::TypeMismatch)
        } else {
            Err(ParseError::Syntax)
        },
        Some(e) => {
            let num = s.subrange(i, e);
            let j = spec_skip_ws(s, e);
            if j < s.len() && s[j] == RBRACKET {
                Ok((seq![num], j + 1))
            } else if j < s.len() && s[j] == COMMA {
                let k = spec_skip_ws(s, j + 1);
                if i < k && k <= s.len() {
                    match spec_parse_elems(s, k) {
                        Err(x) => Err(x),
                        Ok((rest, end)) => Ok((seq![num] + rest, end)),
                    }
                } else {
                    Err(ParseError::Syntax)
                }
            } else {
                Err(ParseError::Syntax)
            }
        },
    }
}

/// Parses the rest of the text after the `some_num` value: `, "some_vec" :
/// [ <numbers> ]`.  Yields the element tokens and the position just past the
/// closing bracket.
pub open spec fn spec_parse_tail(s: Seq<u8>, p: int) -> Result<(Seq<Seq<u8>>, int), ParseError> {
    let i4 = spec_skip_ws(s, p);
    if !(i4 < s.len() && s[i4] == COMMA) {
        Err(ParseError::Syntax)
    } else {
        let i5 = spec_skip_ws(s, i4 + 1);
        match spec_scan_string(s, i5) {
            None => Err(ParseError::Syntax),
            Some(k3) => if s.subrange(i5 + 1, k3 - 1) != key_some_vec() {
                Err(ParseError::Syntax)
            } else {
                let i6 = spec_skip_ws(s, k3);
                if !(i6 < s.len() && s[i6] == COLON) {
                    Err(ParseError::Syntax)
                } else {
                    let i7 = spec_skip_ws(s, i6 + 1);
                    if !(i7 < s.len()) {
                        Err(ParseError::Syntax)
                    } else if s[i7] != LBRACKET {
                        if spec_starts_non_array(s, i7) {
                            Err(ParseError::TypeMismatch)
                        } else {
                            Err(ParseError::Syntax)
                        }
                    } else {
                        let i8 = spec_skip_ws(s, i7 + 1);
                        if i8 < s.len() && s[i8] == RBRACKET {
                            Ok((Seq::empty(), i8 + 1))
                        } else {
                            spec_parse_elems(s, i8)
                        }
                    }
                }
            },
        }
    }
}

/// What parsing yields on each input: the record on the one well-shaped
/// text, a type mismatch when a field holds a value of the wrong JSON type,
/// and a syntax error otherwise.
pub open spec fn spec_parse_num_pair(s: Seq<u8>) -> Result<PairModel, ParseError> {
    match spec_parse_head(s) {
        Err(e) => Err(e),
        Ok((num, p)) => match spec_parse_tail(s, p) {
            Err(e) => Err(e),
            Ok((items, q)) => if spec_closes(s, q) {
                Ok(PairModel { some_num: num, some_vec: items })
            } else {
                Err(ParseError::Syntax)
            },
        },
    }
}

/// A head result read at the level of the mathematical model.
pub open spec fn head_model(r: Result<(Vec<u8>, usize), ParseError>) -> Result<
    (Seq<u8>, int),
    ParseError,
> {
    match r {
        Ok((num, p)) => Ok((num@, p as int)),
        Err(e) => Err(e),
    }
}

/// An element-list result read at the level of the mathematical model.
pub open spec fn elems_model(r: Result<(Vec<Vec<u8>>, usize), ParseError>) -> Result<
    (Seq<Seq<u8>>, int),
    ParseError,
> {
    match r {
        Ok((items, e)) => Ok((items.deep_view(), e as int)),
        Err(e) => Err(e),
    }
}

/// A parse result read at the level of the mathematical model.
pub open spec fn pair_model(r: Result<SerdeExample, ParseError>) -> Result<
    PairModel,
    ParseError,
> {
    match r {
        Ok(p) => Ok(p@),
        Err(e) => Err(e),
    }
}

/// The field name `some_num` as a byte vector.
fn key_some_num_vec() -> (v: Vec<u8>)
    ensures
        v@ == key_some_num(),
{
    let mut v: Vec<u8> = Vec::new();
    v.push(LOWER_S);
    v.push(LOWER_O);
    v.push(LOWER_M);
    v.push(LOWER_E);
    v.push(UNDERSCORE);
    v.push(LOWER_N);
    v.push(LOWER_U);
    v.push(LOWER_M);
    proof {
        assert(v@ =~= key_some_num());
    }
    v
}

/// The field name `some_vec` as a byte vector.
fn key_some_vec_vec() -> (v: Vec<u8>)
    ensures
        v@ == key_some_vec(),
{
    let mut v: Vec<u8> = Vec::new();
    v.push(LOWER_S);
    v.push(LOWER_O);
    v.push(LOWER_M);
    v.push(LOWER_E);
    v.push(UNDERSCORE);
    v.push(LOWER_V);
    v.push(LOWER_E);
    v.push(LOWER_C);
    proof {
        assert(v@ =~= key_some_vec());
    }
    v
}

/// Reads the opening of the text, as [`spec_parse_head`] describes.
fn parse_head(s: &[u8]) -> (r: Result<(Vec<u8>, usize), ParseError>)
    ensures
        head_model(r) == spec_parse_head(s@),
        r matches Ok(x) ==> x.1 <= s@.len(),
{
    let i0 = skip_ws(s, 0);
    if !(i0 < s.len() && s[i0] == LBRACE) {
        return Err(ParseError::Syntax);
    }
    let i1 = skip_ws(s, i0 + 1);
    let k1 = match scan_string(s, i1) {
        None => {
            return Err(ParseError::Syntax);
        },
        Some(k) => k,
    };
    let key = key_some_num_vec();
    if !range_eq(s, i1 + 1, k1 - 1, key.as_slice()) {
        return Err(ParseError::Syntax);
    }
    let i2 = skip_ws(s, k1);
    if !(i2 < s.len() && s[i2] == COLON) {
        return Err(ParseError::Syntax);
    }
    let i3 = skip_ws(s, i2 + 1);
    let k2 = match scan_number(s, i3) {
        None => {
            if starts_non_number(s, i3) {
                return Err(ParseError::TypeMismatch);
            } else {
                return Err(ParseError::Syntax);
            }
        },
        Some(k) => k,
    };
    let num = copy_range(s, i3, k2);
    Ok((num, k2))
}

/// Reads a non-empty element list, as [`spec_parse_elems`] describes.
fn parse_elems(s: &[u8], i: usize) -> (r: Result<(Vec<Vec<u8>>, usize), ParseError>)
    requires
        i <= s@.len(),
    ensures
        elems_model(r) == spec_parse_elems(s@, i as int),
        r matches Ok(x) ==> x.1 <= s@.len(),
    decreases s@.len() - i,
{
    let e = match scan_number(s, i) {
        None => {
            if starts_non_number(s, i) {
                return Err(ParseError::TypeMismatch);
            } else {
                return Err(ParseError::Syntax);
            }
        },
        Some(e) => e,
    };
    let num = copy_range(s, i, e);
    let j = skip_ws(s, e);
    if j < s.len() && s[j] == RBRACKET {
        let mut v: Vec<Vec<u8>> = Vec::new();
        v.push(num);
        proof {
            assert(v.deep_view() =~~= seq![s@.subrange(i as int, e as int)]);
        }
        Ok((v, j + 1))
    } else if j < s.len() && s[j] == COMMA {
        let k = skip_ws(s, j + 1);
        match parse_elems(s, k) {
            Err(x) => Err(x),
            Ok((rest, end)) => {
                let ghost rest0 = rest.deep_view();
                let mut v = rest;
                v.insert(0, num);
                proof {
                    assert(v.deep_view() =~~= seq![s@.subrange(i as int, e as int)] + rest0);
                }
                Ok((v, end))
            },
        }
    } else {
        Err(ParseError::Syntax)
    }
}

/// Reads the rest of the text after the `some_num` value, as
/// [`spec_parse_tail`] describes.
fn parse_tail(s: &[u8], p: usize) -> (r: Result<(Vec<Vec<u8>>, usize), ParseError>)
    requires
        p <= s@.len(),
    ensures
        elems_model(r) == spec_parse_tail(s@, p as int),
        r matches Ok(x) ==> x.1 <= s@.len(),
{
    let i4 = skip_ws(s, p);
    if !(i4 < s.len() && s[i4] == COMMA) {
        return Err(ParseError::Syntax);
    }
    let i5 = skip_ws(s, i4 + 1);
    let k3 = match scan_string(s, i5) {
        None => {
            return Err(ParseError::Syntax);
        },
        Some(k) => k,
    };
    let key = key_some_vec_vec();
    if !range_eq(s, i5 + 1, k3 - 1, key.as_slice()) {
        return Err(ParseError::Syntax);
    }
    let i6 = skip_ws(s, k3);
    if !(i6 < s.len() && s[i6] == COLON) {
        return Err(ParseError::Syntax);
    }
    let i7 = skip_ws(s, i6 + 1);
    if !(i7 < s.len()) {
        return Err(ParseError::Syntax);
    }
    if s[i7] != LBRACKET {
        if starts_non_array(s, i7) {
            return Err(ParseError::TypeMismatch);
        } else {
            return Err(ParseError::Syntax);
        }
    }
    let i8 = skip_ws(s, i7 + 1);
    if i8 < s.len() && s[i8] == RBRACKET {
        let v: Vec<Vec<u8>> = Vec::new();
        proof {
            assert(v.deep_view() =~~= Seq::<Seq<u8>>::empty());
        }
        Ok((v, i8 + 1))
    } else {
        parse_elems(s, i8)
    }
}

/// Joins the element tokens with a comma and a space.
pub open spec fn spec_join_items(items: Seq<Seq<u8>>) -> Seq<u8>
    decreases items.len(),
{
    if items.len() == 0 {
        Seq::empty()
    } else if items.len() == 1 {
        items[0]
    } else {
        items[0] + seq![COMMA, SPACE] + spec_join_items(items.drop_first())
    }
}

/// Appending one more token to a joined list appends a separator and the
/// token (or is the token itself when the list was empty).
pub proof fn lemma_join_push(items: Seq<Seq<u8>>, y: Seq<u8>)
    ensures
        spec_join_items(items.push(y)) == if items.len() == 0 {
            y
        } else {
            spec_join_items(items) + seq![COMMA, SPACE] + y
        },
    decreases items.len(),
{
    if items.len() == 0 {
        assert(items.push(y)[0] == y);
    } else {
        assert(items.push(y).drop_first() =~~= items.drop_first().push(y));
        lemma_join_push(items.drop_first(), y);
        assert(items.push(y)[0] == items[0]);
    }
}

/// Appends the joined element tokens to `out`.
fn push_join(out: &mut Vec<u8>, items: &Vec<Vec<u8>>)
    ensures
        final(out)@ == old(out)@ + spec_join_items(items.deep_view()),
{
    let ghost model = items.deep_view();
    proof {
        assert(out@ =~= old(out)@ + spec_join_items(model.subrange(0, 0)));
    }
    let mut idx: usize = 0;
    while idx < items.len()
        invariant
            0 <= idx <= items@.len(),
            model == items.deep_view(),
            out@ == old(out)@ + spec_join_items(model.subrange(0, idx as int)),
        decreases items@.len() - idx,
    {
        if idx > 0 {
            out.push(COMMA);
            out.push(SPACE);
        }
        push_bytes(out, items[idx].as_slice());
        proof {
            lemma_join_push(model.subrange(0, idx as int), model[idx as int]);
            assert(model.subrange(0, idx as int).push(model[idx as int]) =~~= model.subrange(
                0,
                idx + 1,
            ));
            assert(items@[idx as int]@ == model[idx as int]);
            assert(out@ =~= old(out)@ + spec_join_items(model.subrange(0, idx + 1)));
        }
        idx = idx + 1;
    }
    proof {
        assert(model.subrange(0, model.len() as int) =~~= model);
    }
}

/// The opening of the canonical text, `{"some_num": `.
pub open spec fn num_open() -> Seq<u8> {
    seq![
        LBRACE,
        QUOTE,
        LOWER_S,
        LOWER_O,
        LOWER_M,
        LOWER_E,
        UNDERSCORE,
        LOWER_N,
        LOWER_U,
        LOWER_M,
        QUOTE,
        COLON,
        SPACE,
    ]
}

/// The middle of the canonical text, `, "some_vec": [`.
pub open spec fn num_mid() -> Seq<u8> {
    seq![
        COMMA,
        SPACE,
        QUOTE,
        LOWER_S,
        LOWER_O,
        LOWER_M,
        LOWER_E,
        UNDERSCORE,
        LOWER_V,
        LOWER_E,
        LOWER_C,
        QUOTE,
        COLON,
        SPACE,
        LBRACKET,
    ]
}

/// The closing of the canonical text, `]}`.
pub open spec fn num_close() -> Seq<u8> {
    seq![RBRACKET, RBRACE]
}

/// The canonical text for the record `m`.
pub open spec fn spec_render_num_pair(m: PairModel) -> Seq<u8> {
    num_open() + m.some_num + num_mid() + spec_join_items(m.some_vec) + num_close()
}

/// The display rendering of the record `m`: `(number, [token, token])`.
pub open spec fn spec_display_num_pair(m: PairModel) -> Seq<u8> {
    seq![LPAREN] + m.some_num + seq![COMMA, SPACE, LBRACKET] + spec_join_items(m.some_vec) + seq![
        RBRACKET,
        RPAREN,
    ]
}

impl SerdeExample {
    /// Reads a record from the textual shape, exactly as
    /// [`spec_parse_num_pair`] describes.
    pub fn from_json(s: &[u8]) -> (r: Result<SerdeExample, ParseError>)
        ensures
            pair_model(r) == spec_parse_num_pair(s@),
    {
        let (num, p) = match parse_head(s) {
            Err(e) => {
                return Err(e);
            },
            Ok(x) => x,
        };
        let (items, q) = match parse_tail(s, p) {
            Err(e) => {
                return Err(e);
            },
            Ok(x) => x,
        };
        if !closes(s, q) {
            return Err(ParseError::Syntax);
        }
        Ok(SerdeExample { some_num: num, some_vec: items })
    }

    /// Writes the canonical text for this record, exactly
    /// [`spec_render_num_pair`] of its model.
    pub fn to_json(&self) -> (r: Vec<u8>)
        ensures
            r@ == spec_render_num_pair(self@),
    {
        let mut out: Vec<u8> = Vec::new();
        out.push(LBRACE);
        out.push(QUOTE);
        let key1 = key_some_num_vec();
        push_bytes(&mut out, key1.as_slice());
        out.push(QUOTE);
        out.push(COLON);
        out.push(SPACE);
        push_bytes(&mut out, self.some_num.as_slice());
        out.push(COMMA);
        out.push(SPACE);
        out.push(QUOTE);
        let key2 = key_some_vec_vec();
        push_bytes(&mut out, key2.as_slice());
        out.push(QUOTE);
        out.push(COLON);
        out.push(SPACE);
        out.push(LBRACKET);
        push_join(&mut out, &self.some_vec);
        out.push(RBRACKET);
        out.push(RBRACE);
        proof {
            assert(out@ =~= spec_render_num_pair(self@));
        }
        out
    }

    /// Renders this record for display, exactly [`spec_display_num_pair`] of
    /// its model.
    pub fn to_display_bytes(&self) -> (r: Vec<u8>)
        ensures
            r@ == spec_display_num_pair(self@),
    {
        let mut out: Vec<u8> = Vec::new();
        out.push(LPAREN);
        push_bytes(&mut out, self.some_num.as_slice());
        out.push(COMMA);
        out.push(SPACE);
        out.push(LBRACKET);
        push_join(&mut out, &self.some_vec);
        out.push(RBRACKET);
        out.push(RPAREN);
        proof {
            assert(out@ =~= spec_display_num_pair(self@));
        }
        out
    }
}

/// Parsing a joined, non-empty token list out of a larger text recovers the
/// tokens: when the join sits at `i` with the closing bracket right after
/// it, the element parser yields exactly the list.
pub proof fn lemma_parse_elems_of_join(s: Seq<u8>, i: int, items: Seq<Seq<u8>>)
    requires
        0 <= i,
        items.len() > 0,
        forall|q: int| 0 <= q < items.len() ==> is_number_token(#[trigger] items[q]),
        i + spec_join_items(items).len() < s.len(),
        s.subrange(i, i + spec_join_items(items).len()) == spec_join_items(items),
        s[i + spec_join_items(items).len()] == RBRACKET,
    ensures
        spec_parse_elems(s, i) == Ok::<(Seq<Seq<u8>>, int), ParseError>(
            (items, i + spec_join_items(items).len() + 1),
        ),
    decreases items.len(),
{
    let joined = spec_join_items(items);
    let jn = joined.len() as int;
    let t = items[0];
    let tn = t.len() as int;
    assert(is_number_token(t));
    assert(t.len() > 0);
    assert forall|x: int| i <= x < i + jn implies s[x] == joined[x - i] by {
        assert(s.subrange(i, i + jn)[x - i] == s[x]);
    }
    if items.len() == 1 {
        assert(joined == t);
        assert(s.subrange(i, i + tn) =~= t);
        assert(!is_digit(RBRACKET) && RBRACKET != DOT);
        lemma_scan_number_token(s, i, t);
        assert(!is_ws(RBRACKET));
        assert(spec_skip_ws(s, i + tn) == i + tn);
        assert(spec_parse_elems(s, i) == Ok::<(Seq<Seq<u8>>, int), ParseError>(
            (seq![s.subrange(i, i + tn)], i + tn + 1),
        ));
        assert(seq![s.subrange(i, i + tn)] =~~= items);
    } else {
        let rest = items.drop_first();
        let jr = spec_join_items(rest);
        assert(joined == t + seq![COMMA, SPACE] + jr);
        assert(jn == tn + 2 + jr.len());
        assert forall|x: int| 0 <= x < tn implies joined[x] == t[x] by {}
        assert(s.subrange(i, i + tn) =~= t);
        assert(s[i + tn] == COMMA);
        assert(!is_digit(COMMA) && COMMA != DOT);
        lemma_scan_number_token(s, i, t);
        assert(!is_ws(COMMA));
        assert(spec_skip_ws(s, i + tn) == i + tn);
        assert(s[i + tn + 1] == SPACE);
        // the first byte of the rest of the join is a minus sign or a digit
        let u = rest[0];
        assert(is_number_token(u) && u.len() > 0);
        lemma_skip_digits_all(
            u,
            if u[0] == MINUS {
                1int
            } else {
                0int
            },
        );
        assert(u[0] == MINUS || is_digit(u[0]));
        assert(jr[0] == u[0]);
        assert(s[i + tn + 2] == jr[0]);
        assert(!is_ws(s[i + tn + 2]));
        assert(spec_skip_ws(s, i + tn + 1) == spec_skip_ws(s, i + tn + 2));
        assert(spec_skip_ws(s, i + tn + 2) == i + tn + 2);
        let k = i + tn + 2;
        assert forall|x: int| 0 <= x < jr.len() implies joined[tn + 2 + x] == jr[x] by {}
        assert(s.subrange(k, k + jr.len()) =~= jr);
        assert(s[k + jr.len()] == RBRACKET);
        assert forall|q: int| 0 <= q < rest.len() implies is_number_token(
            #[trigger] rest[q],
        ) by {
            assert(rest[q] == items[q + 1]);
        }
        lemma_parse_elems_of_join(s, k, rest);
        assert(spec_parse_elems(s, i) == Ok::<(Seq<Seq<u8>>, int), ParseError>(
            (seq![s.subrange(i, i + tn)] + rest, i + jn + 1),
        ));
        assert(seq![s.subrange(i, i + tn)] + rest =~~= items);
    }
}

/// Reading the canonical text of a record finds its number token first.
proof fn lemma_render_head(m: PairModel)
    requires
        is_number_token(m.some_num),
    ensures
        spec_parse_head(spec_render_num_pair(m)) == Ok::<(Seq<u8>, int), ParseError>(
            (m.some_num, 13 + m.some_num.len() as int),
        ),
{
    let s = spec_render_num_pair(m);
    let num = m.some_num;
    let a = num.len() as int;
    let jn = spec_join_items(m.some_vec).len() as int;
    assert(s.len() == 30 + a + jn);
    assert forall|x: int| 0 <= x < 13 implies s[x] == num_open()[x] by {}
    assert forall|x: int| 13 <= x < 13 + a implies s[x] == num[x - 13] by {}
    assert(s[13 + a] == num_mid()[0]);
    assert(spec_skip_ws(s, 0) == 0);
    assert(spec_skip_ws(s, 1) == 1);
    assert forall|x: int| 2 <= x < 10 implies is_plain(s[x]) by {}
    lemma_skip_plain_run(s, 2, 10);
    assert(spec_scan_string(s, 1) == Some(11int));
    assert(s.subrange(2, 10) =~= key_some_num());
    assert(spec_skip_ws(s, 11) == 11);
    assert(spec_skip_ws(s, 12) == spec_skip_ws(s, 13));
    assert(num.len() > 0);
    lemma_skip_digits_all(
        num,
        if num[0] == MINUS {
            1int
        } else {
            0int
        },
    );
    assert(num[0] == MINUS || is_digit(num[0]));
    assert(!is_ws(s[13]));
    assert(spec_skip_ws(s, 13) == 13);
    assert(s.subrange(13, 13 + a) =~= num);
    assert(!is_digit(COMMA) && COMMA != DOT);
    lemma_scan_number_token(s, 13, num);
}

/// Reading the canonical text of a record from just past its number token
/// finds the element tokens next.
proof fn lemma_render_tail(m: PairModel)
    requires
        forall|q: int| 0 <= q < m.some_vec.len() ==> is_number_token(#[trigger] m.some_vec[q]),
    ensures
        spec_parse_tail(spec_render_num_pair(m), 13 + m.some_num.len() as int) == Ok::<
            (Seq<Seq<u8>>, int),
            ParseError,
        >(
            (
                m.some_vec,
                29 + m.some_num.len() as int + spec_join_items(m.some_vec).len() as int,
            ),
        ),
{
    let s = spec_render_num_pair(m);
    let a = m.some_num.len() as int;
    let joined = spec_join_items(m.some_vec);
    let jn = joined.len() as int;
    let p = 13 + a;
    assert(s.len() == 30 + a + jn);
    assert forall|x: int| p <= x < p + 15 implies s[x] == num_mid()[x - p] by {}
    assert forall|x: int| p + 15 <= x < p + 15 + jn implies s[x] == joined[x - p - 15] by {}
    assert(s[p + 15 + jn] == RBRACKET);
    assert(spec_skip_ws(s, p) == p);
    assert(spec_skip_ws(s, p + 1) == spec_skip_ws(s, p + 2));
    assert(spec_skip_ws(s, p + 2) == p + 2);
    assert forall|x: int| p + 3 <= x < p + 11 implies is_plain(s[x]) by {}
    lemma_skip_plain_run(s, p + 3, p + 11);
    assert(spec_scan_string(s, p + 2) == Some(p + 12));
    assert(s.subrange(p + 3, p + 11) =~= key_some_vec());
    assert(spec_skip_ws(s, p + 12) == p + 12);
    assert(spec_skip_ws(s, p + 13) == spec_skip_ws(s, p + 14));
    assert(spec_skip_ws(s, p + 14) == p + 14);
    if m.some_vec.len() == 0 {
        assert(jn == 0);
        assert(s[p + 15] == RBRACKET);
        assert(spec_skip_ws(s, p + 15) == p + 15);
        assert(m.some_vec =~~= Seq::<Seq<u8>>::empty());
    } else {
        let u = m.some_vec[0];
        assert(is_number_token(u) && u.len() > 0);
        lemma_skip_digits_all(
            u,
            if u[0] == MINUS {
                1int
            } else {
                0int
            },
        );
        assert(u[0] == MINUS || is_digit(u[0]));
        assert(joined[0] == u[0]);
        assert(s[p + 15] == joined[0]);
        assert(!is_ws(s[p + 15]) && s[p + 15] != RBRACKET);
        assert(spec_skip_ws(s, p + 15) == p + 15);
        assert(s.subrange(p + 15, p + 15 + jn) =~= joined);
        lemma_parse_elems_of_join(s, p + 15, m.some_vec);
    }
}

/// Writing a record and reading the text back restores the record: the
/// canonical text of any record whose tokens are well-formed number tokens
/// parses to exactly that record.
pub proof fn lemma_num_pair_round_trip(m: PairModel)
    requires
        is_number_token(m.some_num),
        forall|q: int| 0 <= q < m.some_vec.len() ==> is_number_token(#[trigger] m.some_vec[q]),
    ensures
        spec_parse_num_pair(spec_render_num_pair(m)) == Ok::<PairModel, ParseError>(m),
{
    let s = spec_render_num_pair(m);
    let a = m.some_num.len() as int;
    let jn = spec_join_items(m.some_vec).len() as int;
    let q = 29 + a + jn;
    assert(s.len() == 30 + a + jn);
    lemma_render_head(m);
    lemma_render_tail(m);
    assert(s[q] == num_close()[1]);
    assert(spec_skip_ws(s, q) == q);
    assert(spec_skip_ws(s, q + 1) == q + 1);
    assert(spec_closes(s, q));
    assert(spec_parse_num_pair(s) == Ok::<PairModel, ParseError>(
        PairModel { some_num: m.some_num, some_vec: m.some_vec },
    ));
}

} // verus!
