//! Rendering integer sequences as text, through a consuming entry point and a
//! borrowing one.
//!
//! The two public functions compute the same text; they differ only in how
//! they take the sequence.  One takes the vector by value and so consumes the
//! caller's binding; the other takes a slice and leaves the caller's vector
//! usable afterwards.  Printing the returned bytes is the caller's business.

use vstd::prelude::*;

use crate::json::MINUS;
use crate::json::NEWLINE;
use crate::json::ZERO;

verus! {

/// The decimal digits of `n`, most significant first.
pub open spec fn spec_digits(n: nat) -> Seq<u8>
    decreases n,
{
    if n < 10 {
        seq![(ZERO + n) as u8]
    } else {
        spec_digits(n / 10).push((ZERO + n % 10) as u8)
    }
}

/// The decimal rendering of `v`, with a leading minus sign when negative.
pub open spec fn spec_int_text(v: int) -> Seq<u8> {
    if v < 0 {
        seq![MINUS] + spec_digits((-v) as nat)
    } else {
        spec_digits(v as nat)
    }
}

/// One line of text per element of `s`: its decimal rendering and a newline.
pub open spec fn spec_lines(s: Seq<i32>) -> Seq<u8>
    decreases s.len(),
{
    if s.len() == 0 {
        Seq::empty()
    } else {
        spec_int_text(s[0] as int) + seq![NEWLINE] + spec_lines(s.drop_first())
    }
}

/// Appends the decimal digits of `n` to `out`.
fn push_digits(out: &mut Vec<u8>, n: u32)
    ensures
        final(out)@ == old(out)@ + spec_digits(n as nat),
    decreases n,
{
    if n < 10 {
        out.push(ZERO + n as u8);
        proof {
            assert(out@ =~= old(out)@ + spec_digits(n as nat));
        }
    } else {
        push_digits(out, n / 10);
        out.push(ZERO + (n % 10) as u8);
        proof {
            assert(out@ =~= old(out)@ + spec_digits(n as nat));
        }
    }
}

/// Renders `v` in decimal.
pub fn int_text(v: i32) -> (r: Vec<u8>)
    ensures
        r@ == spec_int_text(v as int),
{
    let mut out: Vec<u8> = Vec::new();
    if v < 0 {
        out.push(MINUS);
        let mag: u32 = (-(v as i64)) as u32;
        assert(mag as nat == (-(v as int)) as nat);
        push_digits(&mut out, mag);
        proof {
            assert(out@ =~= spec_int_text(v as int));
        }
    } else {
        push_digits(&mut out, v as u32);
        proof {
            assert(out@ =~= spec_int_text(v as int));
        }
    }
    out
}

/// Renders every element of the borrowed slice, one line each.  The caller
/// keeps the vector behind the slice and may use it afterwards.
pub fn example_reference(v: &[i32]) -> (r: Vec<u8>)
    ensures
        r@ == spec_lines(v@),
{
    let mut out: Vec<u8> = Vec::new();
    let mut idx: usize = 0;
    proof {
        assert(v@.skip(0) =~= v@);
    }
    while idx < v.len()
        invariant
            0 <= idx <= v@.len(),
            out@ + spec_lines(v@.skip(idx as int)) == spec_lines(v@),
        decreases v@.len() - idx,
    {
        proof {
            assert(v@.skip(idx as int)[0] == v@[idx as int]);
            assert(v@.skip(idx as int).drop_first() =~= v@.skip(idx + 1));
        }
        let line = int_text(v[idx]);
        crate::json::push_bytes(&mut out, line.as_slice());
        out.push(NEWLINE);
        idx = idx + 1;
        proof {
            assert(out@ + spec_lines(v@.skip(idx as int)) =~= spec_lines(v@));
        }
    }
    proof {
        assert(v@.skip(v@.len() as int) =~= Seq::<i32>::empty());
        assert(out@ + spec_lines(v@.skip(v@.len() as int)) =~= out@);
    }
    out
}

/// Renders every element, taking the vector by value: the caller's binding is
/// consumed and cannot be used after the call.
pub fn example_borrow(v: Vec<i32>) -> (r: Vec<u8>)
    ensures
        r@ == spec_lines(v@),
{
    example_reference(v.as_slice())
}

} // verus!
