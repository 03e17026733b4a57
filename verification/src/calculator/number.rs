//! Numbers, the four operations, and what is asked of the functions that
//! carry them out.

use vstd::prelude::*;

verus! {

/// The bit pattern of an IEEE-754 binary64 value.
pub type Bits = u64;

/// The bit pattern of positive zero.
pub const ZERO: Bits = 0;

/// The bit pattern in which only the sign bit is set.
pub const SIGN_BIT: Bits = 0x8000_0000_0000_0000;

/// One of the four binary operations of the calculator.
#[derive(Clone, Copy, Debug, PartialEq, Eq, Structural)]
pub enum BinOp {
    Add,
    Sub,
    Mul,
    Div,
}

/// The number with the sign bit of `x` flipped and all other bits kept.
pub open spec fn negated(x: Bits) -> Bits {
    if x >= SIGN_BIT {
        (x - SIGN_BIT) as Bits
    } else {
        (x + SIGN_BIT) as Bits
    }
}

/// Negates a number. IEEE-754 negation flips the sign bit and nothing else,
/// for zeros, infinities and NaNs as for every other value.
pub fn negate(x: Bits) -> (r: Bits)
    ensures
        r == negated(x),
{
    let r = x ^ SIGN_BIT;
    assert(r == if x >= 0x8000_0000_0000_0000u64 {
        (x - 0x8000_0000_0000_0000u64) as u64
    } else {
        (x + 0x8000_0000_0000_0000u64) as u64
    }) by (bit_vector)
        requires
            r == x ^ 0x8000_0000_0000_0000u64,
    ;
    r
}

/// The arithmetic unit `arith` can be applied to every operation and every
/// pair of operands.
pub open spec fn total<F: Fn(BinOp, Bits, Bits) -> Bits>(arith: &F) -> bool {
    forall|op: BinOp, a: Bits, b: Bits| call_requires(*arith, (op, a, b))
}

/// Whatever the arithmetic unit `arith` returns is what the function `g`
/// gives for the same operation and operands.
pub open spec fn computes<F: Fn(BinOp, Bits, Bits) -> Bits>(
    arith: &F,
    g: spec_fn(BinOp, Bits, Bits) -> Bits,
) -> bool {
    forall|op: BinOp, a: Bits, b: Bits, r: Bits|
        call_ensures(*arith, (op, a, b), r) ==> r == g(op, a, b)
}

/// The literal reader `read` can be applied to every text.
pub open spec fn accepts_all<R: Fn(&str) -> Option<Bits>>(read: &R) -> bool {
    forall|text: &str| call_requires(*read, (text,))
}

/// Whatever the literal reader `read` returns for a text is what the function
/// `n` gives for the characters of that text.
pub open spec fn reads<R: Fn(&str) -> Option<Bits>>(
    read: &R,
    n: spec_fn(Seq<char>) -> Option<Bits>,
) -> bool {
    forall|text: &str, r: Option<Bits>| call_ensures(*read, (text,), r) ==> r == n(text@)
}

} // verus!
