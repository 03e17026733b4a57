//! The grammar of expressions, and what an expression is worth.
//!
//! ```text
//! additive       := multiplicative (('+' | '-') multiplicative)*
//! multiplicative := primary (('*' | '/') primary)*
//! primary        := NUMBER | MEMORY_REF | '(' additive ')'
//! ```
//!
//! Operators of one level associate to the left.

use vstd::prelude::*;
use crate::calculator::error::CalcError;
use crate::calculator::memory::recall;
use crate::calculator::number::{computes, BinOp, Bits};
use crate::calculator::token::Lexeme;
use crate::calculator::words::remaining;

verus! {

/// An expression as the grammar reads it from a sequence of tokens.
pub enum Expr {
    /// A numeric literal.
    Number(Bits),
    /// A reference to the memory slot of this name.
    MemoryRef(Seq<char>),
    /// An expression in parentheses.
    Group(Box<Expr>),
    /// An operation on two expressions.
    Binary(BinOp, Box<Expr>, Box<Expr>),
}

/// What an expression is worth in the store `slots` when operations are
/// carried out by `g`.
pub open spec fn value_of(
    e: Expr,
    slots: Map<Seq<char>, Bits>,
    g: spec_fn(BinOp, Bits, Bits) -> Bits,
) -> Bits
    decreases e,
{
    match e {
        Expr::Number(bits) => bits,
        Expr::MemoryRef(name) => recall(slots, name),
        Expr::Group(inner) => value_of(*inner, slots, g),
        Expr::Binary(op, left, right) => g(op, value_of(*left, slots, g), value_of(*right, slots, g)),
    }
}

/// The number `value` is one that the arithmetic unit `arith` may give for
/// the operation `op` on `a` and `b`.
pub open spec fn applies<F: Fn(BinOp, Bits, Bits) -> Bits>(
    arith: &F,
    op: BinOp,
    a: Bits,
    b: Bits,
    value: Bits,
) -> bool {
    call_ensures(*arith, (op, a, b), value)
}

/// The number `value` is one that the arithmetic unit `arith` may give for
/// the expression `e` in the store `slots`: each operation of `e` was carried
/// out by `arith` on numbers that its operands may give.
pub open spec fn yields<F: Fn(BinOp, Bits, Bits) -> Bits>(
    e: Expr,
    slots: Map<Seq<char>, Bits>,
    arith: &F,
    value: Bits,
) -> bool
    decreases e,
{
    match e {
        Expr::Number(bits) => value == bits,
        Expr::MemoryRef(name) => value == recall(slots, name),
        Expr::Group(inner) => yields(*inner, slots, arith, value),
        Expr::Binary(op, left, right) => exists|a: Bits, b: Bits|
            yields(*left, slots, arith, a) && yields(*right, slots, arith, b) && #[trigger] applies(
                arith,
                op,
                a,
                b,
                value,
            ),
    }
}

/// Where the arithmetic unit computes the function `g`, the only number that
/// it may give for an expression is what the expression is worth under `g`.
pub proof fn lemma_yields_value<F: Fn(BinOp, Bits, Bits) -> Bits>(
    e: Expr,
    slots: Map<Seq<char>, Bits>,
    arith: &F,
    value: Bits,
    g: spec_fn(BinOp, Bits, Bits) -> Bits,
)
    requires
        yields(e, slots, arith, value),
        computes(arith, g),
    ensures
        value == value_of(e, slots, g),
    decreases e,
{
    match e {
        Expr::Number(_) => {},
        Expr::MemoryRef(_) => {},
        Expr::Group(inner) => {
            lemma_yields_value(*inner, slots, arith, value, g);
        },
        Expr::Binary(op, left, right) => {
            let (a, b) = choose|a: Bits, b: Bits|
                yields(*left, slots, arith, a) && yields(*right, slots, arith, b)
                    && #[trigger] applies(arith, op, a, b, value);
            lemma_yields_value(*left, slots, arith, a, g);
            lemma_yields_value(*right, slots, arith, b, g);
        },
    }
}

/// The operation that a token of the additive level stands for.
pub open spec fn additive_operator(t: Lexeme) -> Option<BinOp> {
    match t {
        Lexeme::Plus => Some(BinOp::Add),
        Lexeme::Minus => Some(BinOp::Sub),
        _ => None,
    }
}

/// The operation that a token of the multiplicative level stands for.
pub open spec fn multiplicative_operator(t: Lexeme) -> Option<BinOp> {
    match t {
        Lexeme::Asterisk => Some(BinOp::Mul),
        Lexeme::Slash => Some(BinOp::Div),
        _ => None,
    }
}

/// Reads a primary expression that begins at position `i`. Gives the
/// expression and the number of tokens that it takes up.
pub open spec fn parse_primary(ts: Seq<Lexeme>, i: int) -> Result<(Expr, nat), CalcError>
    decreases remaining(ts, i), 0int,
{
    if !(0 <= i < ts.len()) {
        Err(CalcError::UnexpectedEnd)
    } else {
        match ts[i] {
            Lexeme::Number(bits) => Ok((Expr::Number(bits), 1)),
            Lexeme::MemoryRef(name) => Ok((Expr::MemoryRef(name), 1)),
            Lexeme::LParen => match parse_additive(ts, i + 1) {
                Ok((inner, n)) => {
                    let close = i + 1 + n;
                    if close < ts.len() && ts[close] is RParen {
                        Ok((Expr::Group(Box::new(inner)), n + 2))
                    } else {
                        Err(CalcError::ExpectedCloseParen(close as usize))
                    }
                },
                Err(e) => Err(e),
            },
            _ => Err(CalcError::UnexpectedToken(i as usize)),
        }
    }
}

/// Continues a multiplicative expression whose operands so far make up
/// `left`, at position `i`: as long as `*` or `/` follows, the next primary
/// expression becomes the right operand of what was read before. Gives the
/// whole expression and the number of tokens taken from `i` on.
pub open spec fn multiplicative_tail(ts: Seq<Lexeme>, left: Expr, i: int) -> Result<
    (Expr, nat),
    CalcError,
>
    decreases remaining(ts, i), 1int,
{
    if 0 <= i < ts.len() && multiplicative_operator(ts[i]) is Some {
        match parse_primary(ts, i + 1) {
            Ok((right, n)) => {
                let joined = Expr::Binary(
                    multiplicative_operator(ts[i])->Some_0,
                    Box::new(left),
                    Box::new(right),
                );
                match multiplicative_tail(ts, joined, i + 1 + n) {
                    Ok((whole, m)) => Ok((whole, 1 + n + m)),
                    Err(e) => Err(e),
                }
            },
            Err(e) => Err(e),
        }
    } else {
        Ok((left, 0))
    }
}

/// Reads a multiplicative expression that begins at position `i`.
pub open spec fn parse_multiplicative(ts: Seq<Lexeme>, i: int) -> Result<(Expr, nat), CalcError>
    decreases remaining(ts, i), 2int,
{
    match parse_primary(ts, i) {
        Ok((first, n)) => match multiplicative_tail(ts, first, i + n) {
            Ok((whole, m)) => Ok((whole, n + m)),
            Err(e) => Err(e),
        },
        Err(e) => Err(e),
    }
}

/// Continues an additive expression whose operands so far make up `left`, at
/// position `i`: as long as `+` or `-` follows, the next multiplicative
/// expression becomes the right operand of what was read before.
pub open spec fn additive_tail(ts: Seq<Lexeme>, left: Expr, i: int) -> Result<
    (Expr, nat),
    CalcError,
>
    decreases remaining(ts, i), 3int,
{
    if 0 <= i < ts.len() && additive_operator(ts[i]) is Some {
        match parse_multiplicative(ts, i + 1) {
            Ok((right, n)) => {
                let joined = Expr::Binary(
                    additive_operator(ts[i])->Some_0,
                    Box::new(left),
                    Box::new(right),
                );
                match additive_tail(ts, joined, i + 1 + n) {
                    Ok((whole, m)) => Ok((whole, 1 + n + m)),
                    Err(e) => Err(e),
                }
            },
            Err(e) => Err(e),
        }
    } else {
        Ok((left, 0))
    }
}

/// Reads an additive expression that begins at position `i`.
pub open spec fn parse_additive(ts: Seq<Lexeme>, i: int) -> Result<(Expr, nat), CalcError>
    decreases remaining(ts, i), 4int,
{
    match parse_multiplicative(ts, i) {
        Ok((first, n)) => match additive_tail(ts, first, i + n) {
            Ok((whole, m)) => Ok((whole, n + m)),
            Err(e) => Err(e),
        },
        Err(e) => Err(e),
    }
}

/// Reads a whole line as one expression: an additive expression that takes
/// up every token.
pub open spec fn parse_expression(ts: Seq<Lexeme>) -> Result<Expr, CalcError> {
    match parse_additive(ts, 0) {
        Ok((e, n)) => if n == ts.len() {
            Ok(e)
        } else {
            Err(CalcError::TrailingTokens(n as usize))
        },
        Err(e) => Err(e),
    }
}

/// What a whole line is worth in the store `slots` when operations are
/// carried out by `g`, or why it is rejected.
pub open spec fn expression_value(
    ts: Seq<Lexeme>,
    slots: Map<Seq<char>, Bits>,
    g: spec_fn(BinOp, Bits, Bits) -> Bits,
) -> Result<Bits, CalcError> {
    match parse_expression(ts) {
        Ok(e) => Ok(value_of(e, slots, g)),
        Err(error) => Err(error),
    }
}

} // verus!
