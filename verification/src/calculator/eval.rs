//! The evaluator: recursive descent over the tokens of a line, with a cursor
//! and no tree. Each function takes the position at which it starts and gives
//! the value it found and the position after it.

use vstd::prelude::*;
use crate::calculator::error::CalcError;
use crate::calculator::memory::Memory;
use crate::calculator::number::{computes, total, BinOp, Bits};
use crate::calculator::syntax::{
    additive_tail,
    expression_value,
    applies,
    lemma_yields_value,
    multiplicative_tail,
    parse_additive,
    parse_expression,
    parse_multiplicative,
    parse_primary,
    value_of,
    yields,
    Expr,
};
use crate::calculator::token::{lexemes, Token};

verus! {

/// The outcome `r` of evaluating from position `start` is the one that the
/// grammar asks for, `parsed`. Where the grammar reads an expression, `r`
/// holds the position after it, and a number that the arithmetic unit gives
/// for that expression. Where the grammar rejects the tokens, `r` is the
/// same error.
pub open spec fn agrees<F: Fn(BinOp, Bits, Bits) -> Bits>(
    r: Result<(Bits, usize), CalcError>,
    parsed: Result<(Expr, nat), CalcError>,
    start: usize,
    len: usize,
    slots: Map<Seq<char>, Bits>,
    arith: &F,
) -> bool {
    match parsed {
        Ok((e, n)) => {
            &&& r is Ok
            &&& r->Ok_0.1 == start + n
            &&& start < r->Ok_0.1 <= len
            &&& yields(e, slots, arith, r->Ok_0.0)
        },
        Err(error) => r == Err::<(Bits, usize), CalcError>(error),
    }
}

/// The outcome `r` of evaluating a whole line is the one that the grammar
/// asks for: a number that the arithmetic unit gives for the expression that
/// the line spells, or the error with which the grammar rejects the line.
pub open spec fn evaluates<F: Fn(BinOp, Bits, Bits) -> Bits>(
    r: Result<Bits, CalcError>,
    parsed: Result<Expr, CalcError>,
    slots: Map<Seq<char>, Bits>,
    arith: &F,
) -> bool {
    match parsed {
        Ok(e) => r is Ok && yields(e, slots, arith, r->Ok_0),
        Err(error) => r == Err::<Bits, CalcError>(error),
    }
}

/// The outcome of a continuation that began `k` tokens after the expression
/// did.
pub open spec fn after(k: nat, tail: Result<(Expr, nat), CalcError>) -> Result<
    (Expr, nat),
    CalcError,
> {
    match tail {
        Ok((e, m)) => Ok((e, k + m)),
        Err(error) => Err(error),
    }
}

/// Evaluates the tokens of a line as one expression. Every token must belong
/// to it.
pub fn eval_expression<F: Fn(BinOp, Bits, Bits) -> Bits>(
    tokens: &[Token],
    memory: &Memory,
    arith: &F,
) -> (r: Result<Bits, CalcError>)
    requires
        total(arith),
    ensures
        evaluates(r, parse_expression(lexemes(tokens@)), memory@, arith),
        forall|g: spec_fn(BinOp, Bits, Bits) -> Bits| #[trigger]
            computes(arith, g) ==> r == expression_value(lexemes(tokens@), memory@, g),
{
    match eval_additive_expression(0, tokens, memory, arith) {
        Ok((result, index)) => {
            if index == tokens.len() {
                proof {
                    let e = parse_expression(lexemes(tokens@))->Ok_0;
                    assert forall|g: spec_fn(BinOp, Bits, Bits) -> Bits| #[trigger]
                        computes(arith, g) implies result == value_of(e, memory@, g) by {
                        lemma_yields_value(e, memory@, arith, result, g);
                    }
                }
                Ok(result)
            } else {
                Err(CalcError::TrailingTokens(index))
            }
        },
        Err(error) => Err(error),
    }
}

/// Evaluates an additive expression that begins at `index`: one
/// multiplicative expression, and then, as long as `+` or `-` follows,
/// another one that is added to or subtracted from what was found so far.
pub fn eval_additive_expression<F: Fn(BinOp, Bits, Bits) -> Bits>(
    index: usize,
    tokens: &[Token],
    memory: &Memory,
    arith: &F,
) -> (r: Result<(Bits, usize), CalcError>)
    requires
        total(arith),
    ensures
        agrees(
            r,
            parse_additive(lexemes(tokens@), index as int),
            index,
            tokens.len(),
            memory@,
            arith,
        ),
    decreases tokens.len() - index, 4int,
{
    let ghost ts = lexemes(tokens@);
    let (mut result, mut cursor) = match eval_multiplicative_expression(index, tokens, memory, arith) {
        Ok(found) => found,
        Err(error) => {
            return Err(error);
        },
    };
    let ghost mut left: Expr = parse_multiplicative(ts, index as int)->Ok_0.0;
    while cursor < tokens.len()
        invariant
            total(arith),
            ts == lexemes(tokens@),
            index < cursor <= tokens.len(),
            parse_additive(ts, index as int) == after(
                (cursor - index) as nat,
                additive_tail(ts, left, cursor as int),
            ),
            yields(left, memory@, arith, result),
        ensures
            index < cursor <= tokens.len(),
            parse_additive(ts, index as int) == Ok::<(Expr, nat), CalcError>(
                (left, (cursor - index) as nat),
            ),
            yields(left, memory@, arith, result),
        decreases tokens.len() - cursor,
    {
        assert(ts[cursor as int] == tokens[cursor as int]@);
        match &tokens[cursor] {
            Token::Plus => {
                match eval_multiplicative_expression(cursor + 1, tokens, memory, arith) {
                    Ok((value, next)) => {
                        let joined = arith(BinOp::Add, result, value);
                        proof {
                            let right = parse_multiplicative(ts, cursor + 1)->Ok_0.0;
                            left = Expr::Binary(BinOp::Add, Box::new(left), Box::new(right));
                            assert(applies(arith, BinOp::Add, result, value, joined));
                        }
                        result = joined;
                        cursor = next;
                    },
                    Err(error) => {
                        return Err(error);
                    },
                }
            },
            Token::Minus => {
                match eval_multiplicative_expression(cursor + 1, tokens, memory, arith) {
                    Ok((value, next)) => {
                        let joined = arith(BinOp::Sub, result, value);
                        proof {
                            let right = parse_multiplicative(ts, cursor + 1)->Ok_0.0;
                            left = Expr::Binary(BinOp::Sub, Box::new(left), Box::new(right));
                            assert(applies(arith, BinOp::Sub, result, value, joined));
                        }
                        result = joined;
                        cursor = next;
                    },
                    Err(error) => {
                        return Err(error);
                    },
                }
            },
            _ => {
                break ;
            },
        }
    }
    Ok((result, cursor))
}

/// Evaluates a multiplicative expression that begins at `index`: one primary
/// expression, and then, as long as `*` or `/` follows, another one by which
/// what was found so far is multiplied or divided.
pub fn eval_multiplicative_expression<F: Fn(BinOp, Bits, Bits) -> Bits>(
    index: usize,
    tokens: &[Token],
    memory: &Memory,
    arith: &F,
) -> (r: Result<(Bits, usize), CalcError>)
    requires
        total(arith),
    ensures
        agrees(
            r,
            parse_multiplicative(lexemes(tokens@), index as int),
            index,
            tokens.len(),
            memory@,
            arith,
        ),
    decreases tokens.len() - index, 2int,
{
    let ghost ts = lexemes(tokens@);
    let (mut result, mut cursor) = match eval_primary_expression(index, tokens, memory, arith) {
        Ok(found) => found,
        Err(error) => {
            return Err(error);
        },
    };
    let ghost mut left: Expr = parse_primary(ts, index as int)->Ok_0.0;
    while cursor < tokens.len()
        invariant
            total(arith),
            ts == lexemes(tokens@),
            index < cursor <= tokens.len(),
            parse_multiplicative(ts, index as int) == after(
                (cursor - index) as nat,
                multiplicative_tail(ts, left, cursor as int),
            ),
            yields(left, memory@, arith, result),
        ensures
            index < cursor <= tokens.len(),
            parse_multiplicative(ts, index as int) == Ok::<(Expr, nat), CalcError>(
                (left, (cursor - index) as nat),
            ),
            yields(left, memory@, arith, result),
        decreases tokens.len() - cursor,
    {
        assert(ts[cursor as int] == tokens[cursor as int]@);
        match &tokens[cursor] {
            Token::Asterisk => {
                match eval_primary_expression(cursor + 1, tokens, memory, arith) {
                    Ok((value, next)) => {
                        let joined = arith(BinOp::Mul, result, value);
                        proof {
                            let right = parse_primary(ts, cursor + 1)->Ok_0.0;
                            left = Expr::Binary(BinOp::Mul, Box::new(left), Box::new(right));
                            assert(applies(arith, BinOp::Mul, result, value, joined));
                        }
                        result = joined;
                        cursor = next;
                    },
                    Err(error) => {
                        return Err(error);
                    },
                }
            },
            Token::Slash => {
                match eval_primary_expression(cursor + 1, tokens, memory, arith) {
                    Ok((value, next)) => {
                        let joined = arith(BinOp::Div, result, value);
                        proof {
                            let right = parse_primary(ts, cursor + 1)->Ok_0.0;
                            left = Expr::Binary(BinOp::Div, Box::new(left), Box::new(right));
                            assert(applies(arith, BinOp::Div, result, value, joined));
                        }
                        result = joined;
                        cursor = next;
                    },
                    Err(error) => {
                        return Err(error);
                    },
                }
            },
            _ => {
                break ;
            },
        }
    }
    Ok((result, cursor))
}

/// Evaluates a primary expression that begins at `index`: a number, a memory
/// slot, or an additive expression in parentheses.
pub fn eval_primary_expression<F: Fn(BinOp, Bits, Bits) -> Bits>(
    index: usize,
    tokens: &[Token],
    memory: &Memory,
    arith: &F,
) -> (r: Result<(Bits, usize), CalcError>)
    requires
        total(arith),
    ensures
        agrees(
            r,
            parse_primary(lexemes(tokens@), index as int),
            index,
            tokens.len(),
            memory@,
            arith,
        ),
    decreases tokens.len() - index, 0int,
{
    if index >= tokens.len() {
        return Err(CalcError::UnexpectedEnd);
    }
    assert(lexemes(tokens@)[index as int] == tokens[index as int]@);
    match &tokens[index] {
        Token::LParen => {
            match eval_additive_expression(index + 1, tokens, memory, arith) {
                Ok((result, next)) => {
                    if next < tokens.len() {
                        assert(lexemes(tokens@)[next as int] == tokens[next as int]@);
                        match &tokens[next] {
                            Token::RParen => Ok((result, next + 1)),
                            _ => Err(CalcError::ExpectedCloseParen(next)),
                        }
                    } else {
                        Err(CalcError::ExpectedCloseParen(next))
                    }
                },
                Err(error) => Err(error),
            }
        },
        Token::Number(value) => Ok((*value, index + 1)),
        Token::MemoryRef(memory_name) => Ok((memory.get(memory_name.as_str()), index + 1)),
        _ => Err(CalcError::UnexpectedToken(index)),
    }
}

} // verus!
