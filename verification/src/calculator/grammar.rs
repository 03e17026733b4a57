//! The grammar stated on expressions, and the proof that reading tokens is
//! its inverse: every expression of the grammar is read back from its tokens,
//! and whatever is read from tokens is an expression of the grammar with
//! exactly those tokens.

use vstd::prelude::*;
use crate::calculator::error::CalcError;
use crate::calculator::eval::after;
use crate::calculator::number::{BinOp, Bits};
use crate::calculator::syntax::{
    additive_operator,
    additive_tail,
    expression_value,
    multiplicative_operator,
    multiplicative_tail,
    parse_additive,
    parse_expression,
    parse_multiplicative,
    parse_primary,
    value_of,
    Expr,
};
use crate::calculator::token::Lexeme;
use crate::calculator::words::remaining;

verus! {

/// The token that stands for an operation.
pub open spec fn symbol_of(op: BinOp) -> Lexeme {
    match op {
        BinOp::Add => Lexeme::Plus,
        BinOp::Sub => Lexeme::Minus,
        BinOp::Mul => Lexeme::Asterisk,
        BinOp::Div => Lexeme::Slash,
    }
}

/// The tokens that spell an expression, from left to right.
pub open spec fn tokens_of(e: Expr) -> Seq<Lexeme>
    decreases e,
{
    match e {
        Expr::Number(bits) => seq![Lexeme::Number(bits)],
        Expr::MemoryRef(name) => seq![Lexeme::MemoryRef(name)],
        Expr::Group(inner) => seq![Lexeme::LParen] + tokens_of(*inner) + seq![Lexeme::RParen],
        Expr::Binary(op, left, right) => tokens_of(*left) + seq![symbol_of(op)] + tokens_of(
            *right,
        ),
    }
}

/// `e` is a primary expression: a number, a memory slot, or an additive
/// expression in parentheses.
pub open spec fn is_primary(e: Expr) -> bool
    decreases e, 0int,
{
    match e {
        Expr::Number(_) => true,
        Expr::MemoryRef(_) => true,
        Expr::Group(inner) => is_additive(*inner),
        Expr::Binary(_, _, _) => false,
    }
}

/// `e` is a multiplicative expression: a primary expression, or a
/// multiplicative expression times or divided by a primary expression.
pub open spec fn is_multiplicative(e: Expr) -> bool
    decreases e, 1int,
{
    match e {
        Expr::Binary(op, left, right) => (op is Mul || op is Div) && is_multiplicative(*left)
            && is_primary(*right),
        _ => is_primary(e),
    }
}

/// `e` is an additive expression: a multiplicative expression, or an additive
/// expression plus or minus a multiplicative expression.
pub open spec fn is_additive(e: Expr) -> bool
    decreases e, 2int,
{
    match e {
        Expr::Binary(op, left, right) => if op is Add || op is Sub {
            is_additive(*left) && is_multiplicative(*right)
        } else {
            is_multiplicative(e)
        },
        _ => is_multiplicative(e),
    }
}

/// The tokens `part` stand in `ts` from position `i` on.
pub open spec fn occurs_at(ts: Seq<Lexeme>, i: int, part: Seq<Lexeme>) -> bool {
    &&& 0 <= i
    &&& i + part.len() <= ts.len()
    &&& forall|k: int| 0 <= k < part.len() ==> ts[i + k] == #[trigger] part[k]
}

/// No token of the multiplicative level stands at position `i`.
pub open spec fn no_factor_follows(ts: Seq<Lexeme>, i: int) -> bool {
    !(0 <= i < ts.len() && multiplicative_operator(ts[i]) is Some)
}

/// No operator stands at position `i`.
pub open spec fn no_operator_follows(ts: Seq<Lexeme>, i: int) -> bool {
    &&& no_factor_follows(ts, i)
    &&& !(0 <= i < ts.len() && additive_operator(ts[i]) is Some)
}

/// Where the tokens of a primary expression stand, that expression is read.
pub proof fn lemma_reads_primary(ts: Seq<Lexeme>, i: int, e: Expr)
    requires
        is_primary(e),
        occurs_at(ts, i, tokens_of(e)),
    ensures
        parse_primary(ts, i) == Ok::<(Expr, nat), CalcError>((e, tokens_of(e).len())),
    decreases e, 0int,
{
    let part = tokens_of(e);
    assert(ts[i + 0] == part[0]);
    match e {
        Expr::Number(_) => {},
        Expr::MemoryRef(_) => {},
        Expr::Group(inner) => {
            let inside = tokens_of(*inner);
            let close = i + 1 + inside.len();
            assert forall|k: int| 0 <= k < inside.len() implies ts[i + 1 + k] == #[trigger] inside[k] by {
                assert(part[k + 1] == inside[k]);
            }
            assert(ts[i + (inside.len() + 1)] == part[(inside.len() + 1) as int]);
            assert(ts[close] == Lexeme::RParen);
            lemma_reads_additive(ts, i + 1, *inner);
        },
        Expr::Binary(_, _, _) => {},
    }
}

/// Where the tokens of a multiplicative expression stand, reading goes on
/// behind them with that expression as what was read so far.
pub proof fn lemma_reads_factors(ts: Seq<Lexeme>, i: int, e: Expr)
    requires
        is_multiplicative(e),
        occurs_at(ts, i, tokens_of(e)),
    ensures
        parse_multiplicative(ts, i) == after(
            tokens_of(e).len(),
            multiplicative_tail(ts, e, i + tokens_of(e).len()),
        ),
    decreases e, 1int,
{
    let part = tokens_of(e);
    match e {
        Expr::Binary(op, left, right) => {
            let l = tokens_of(*left);
            let r = tokens_of(*right);
            assert forall|k: int| 0 <= k < l.len() implies ts[i + k] == #[trigger] l[k] by {
                assert(part[k] == l[k]);
            }
            assert(ts[i + l.len()] == part[l.len() as int]);
            assert forall|k: int| 0 <= k < r.len() implies ts[i + l.len() + 1 + k] == #[trigger] r[k] by {
                assert(part[l.len() + 1 + k] == r[k]);
            }
            lemma_reads_factors(ts, i, *left);
            lemma_reads_primary(ts, i + l.len() + 1, *right);
        },
        _ => {
            lemma_reads_primary(ts, i, e);
        },
    }
}

/// Where the tokens of an additive expression stand, and no `*` or `/`
/// follows them, reading goes on behind them with that expression as what
/// was read so far.
pub proof fn lemma_reads_terms(ts: Seq<Lexeme>, i: int, e: Expr)
    requires
        is_additive(e),
        occurs_at(ts, i, tokens_of(e)),
        no_factor_follows(ts, i + tokens_of(e).len()),
    ensures
        parse_additive(ts, i) == after(
            tokens_of(e).len(),
            additive_tail(ts, e, i + tokens_of(e).len()),
        ),
    decreases e, 2int,
{
    let part = tokens_of(e);
    match e {
        Expr::Binary(op, left, right) => {
            if op is Add || op is Sub {
                let l = tokens_of(*left);
                let r = tokens_of(*right);
                assert forall|k: int| 0 <= k < l.len() implies ts[i + k] == #[trigger] l[k] by {
                    assert(part[k] == l[k]);
                }
                assert(ts[i + l.len()] == part[l.len() as int]);
                assert forall|k: int| 0 <= k < r.len() implies ts[i + l.len() + 1 + k]
                    == #[trigger] r[k] by {
                    assert(part[l.len() + 1 + k] == r[k]);
                }
                lemma_reads_terms(ts, i, *left);
                lemma_reads_factors(ts, i + l.len() + 1, *right);
            } else {
                lemma_reads_factors(ts, i, e);
            }
        },
        _ => {
            lemma_reads_factors(ts, i, e);
        },
    }
}

/// Where the tokens of an additive expression stand, and no operator
/// follows them, that expression is read.
pub proof fn lemma_reads_additive(ts: Seq<Lexeme>, i: int, e: Expr)
    requires
        is_additive(e),
        occurs_at(ts, i, tokens_of(e)),
        no_operator_follows(ts, i + tokens_of(e).len()),
    ensures
        parse_additive(ts, i) == Ok::<(Expr, nat), CalcError>((e, tokens_of(e).len())),
    decreases e, 3int,
{
    lemma_reads_terms(ts, i, e);
}

/// Every expression of the grammar is read back from its own tokens: a line
/// that spells an additive expression is given exactly that expression, with
/// its operators grouped as the grammar groups them.
pub proof fn lemma_spelled_expression_is_read(e: Expr)
    requires
        is_additive(e),
    ensures
        parse_expression(tokens_of(e)) == Ok::<Expr, CalcError>(e),
{
    lemma_reads_additive(tokens_of(e), 0, e);
}

/// What is read as a primary expression is one, and its tokens are the ones
/// that were read.
pub proof fn lemma_primary_is_spelled(ts: Seq<Lexeme>, i: int)
    requires
        0 <= i,
    ensures
        parse_primary(ts, i) matches Ok((e, n)) ==> is_primary(e) && n == tokens_of(e).len()
            && occurs_at(ts, i, tokens_of(e)),
    decreases remaining(ts, i), 0int,
{
    if i < ts.len() {
        match ts[i] {
            Lexeme::LParen => {
                lemma_additive_is_spelled(ts, i + 1);
                if let Ok((inner, n)) = parse_additive(ts, i + 1) {
                    let close = i + 1 + n;
                    if close < ts.len() && ts[close] is RParen {
                        let e = Expr::Group(Box::new(inner));
                        let inside = tokens_of(inner);
                        assert forall|k: int| 0 <= k < tokens_of(e).len() implies ts[i + k]
                            == #[trigger] tokens_of(e)[k] by {
                            if 1 <= k <= inside.len() {
                                assert(ts[(i + 1) + (k - 1)] == inside[k - 1]);
                            }
                        }
                    }
                }
            },
            _ => {},
        }
    }
}

/// What a continuation at the multiplicative level gives is a multiplicative
/// expression that begins where its left part began, and its tokens are the
/// ones that were read.
pub proof fn lemma_factors_are_spelled(ts: Seq<Lexeme>, start: int, left: Expr, i: int)
    requires
        is_multiplicative(left),
        occurs_at(ts, start, tokens_of(left)),
        i == start + tokens_of(left).len(),
    ensures
        multiplicative_tail(ts, left, i) matches Ok((e, m)) ==> is_multiplicative(e)
            && tokens_of(e).len() == tokens_of(left).len() + m && occurs_at(
            ts,
            start,
            tokens_of(e),
        ),
    decreases remaining(ts, i), 1int,
{
    if 0 <= i < ts.len() && multiplicative_operator(ts[i]) is Some {
        lemma_primary_is_spelled(ts, i + 1);
        if let Ok((right, n)) = parse_primary(ts, i + 1) {
            let op = multiplicative_operator(ts[i])->Some_0;
            let joined = Expr::Binary(op, Box::new(left), Box::new(right));
            let l = tokens_of(left);
            let r = tokens_of(right);
            assert(ts[i] == symbol_of(op));
            assert forall|k: int| 0 <= k < tokens_of(joined).len() implies ts[start + k]
                == #[trigger] tokens_of(joined)[k] by {
                if k < l.len() {
                    assert(ts[start + k] == l[k]);
                } else if k > l.len() {
                    assert(ts[(i + 1) + (k - l.len() - 1)] == r[k - l.len() - 1]);
                }
            }
            lemma_factors_are_spelled(ts, start, joined, i + 1 + n);
        }
    }
}

/// What is read as a multiplicative expression is one, and its tokens are the
/// ones that were read.
pub proof fn lemma_multiplicative_is_spelled(ts: Seq<Lexeme>, i: int)
    requires
        0 <= i,
    ensures
        parse_multiplicative(ts, i) matches Ok((e, n)) ==> is_multiplicative(e) && n == tokens_of(
            e,
        ).len() && occurs_at(ts, i, tokens_of(e)),
    decreases remaining(ts, i), 2int,
{
    lemma_primary_is_spelled(ts, i);
    if let Ok((first, n)) = parse_primary(ts, i) {
        lemma_factors_are_spelled(ts, i, first, i + n);
    }
}

/// What a continuation at the additive level gives is an additive expression
/// that begins where its left part began, and its tokens are the ones that
/// were read.
pub proof fn lemma_terms_are_spelled(ts: Seq<Lexeme>, start: int, left: Expr, i: int)
    requires
        is_additive(left),
        occurs_at(ts, start, tokens_of(left)),
        i == start + tokens_of(left).len(),
    ensures
        additive_tail(ts, left, i) matches Ok((e, m)) ==> is_additive(e) && tokens_of(e).len()
            == tokens_of(left).len() + m && occurs_at(ts, start, tokens_of(e)),
    decreases remaining(ts, i), 3int,
{
    if 0 <= i < ts.len() && additive_operator(ts[i]) is Some {
        lemma_multiplicative_is_spelled(ts, i + 1);
        if let Ok((right, n)) = parse_multiplicative(ts, i + 1) {
            let op = additive_operator(ts[i])->Some_0;
            let joined = Expr::Binary(op, Box::new(left), Box::new(right));
            let l = tokens_of(left);
            let r = tokens_of(right);
            assert(ts[i] == symbol_of(op));
            assert forall|k: int| 0 <= k < tokens_of(joined).len() implies ts[start + k]
                == #[trigger] tokens_of(joined)[k] by {
                if k < l.len() {
                    assert(ts[start + k] == l[k]);
                } else if k > l.len() {
                    assert(ts[(i + 1) + (k - l.len() - 1)] == r[k - l.len() - 1]);
                }
            }
            lemma_terms_are_spelled(ts, start, joined, i + 1 + n);
        }
    }
}

/// What is read as an additive expression is one, and its tokens are the ones
/// that were read.
pub proof fn lemma_additive_is_spelled(ts: Seq<Lexeme>, i: int)
    requires
        0 <= i,
    ensures
        parse_additive(ts, i) matches Ok((e, n)) ==> is_additive(e) && n == tokens_of(e).len()
            && occurs_at(ts, i, tokens_of(e)),
    decreases remaining(ts, i), 4int,
{
    lemma_multiplicative_is_spelled(ts, i);
    if let Ok((first, n)) = parse_multiplicative(ts, i) {
        lemma_terms_are_spelled(ts, i, first, i + n);
    }
}

/// Whatever a line is read as is an expression of the grammar, and the line
/// is how that expression is spelled: the evaluator accepts the lines that
/// spell an additive expression and no others.
pub proof fn lemma_read_expression_is_spelled(ts: Seq<Lexeme>)
    ensures
        parse_expression(ts) matches Ok(e) ==> is_additive(e) && tokens_of(e) == ts,
{
    lemma_additive_is_spelled(ts, 0);
    if let Ok(e) = parse_expression(ts) {
        assert(tokens_of(e) =~= ts) by {
            assert forall|k: int| 0 <= k < ts.len() implies tokens_of(e)[k] == ts[k] by {
                assert(ts[0 + k] == tokens_of(e)[k]);
            }
        }
    }
}

/// `op` is an operation of the additive level.
pub open spec fn is_term_op(op: BinOp) -> bool {
    op is Add || op is Sub
}

/// `op` is an operation of the multiplicative level.
pub open spec fn is_factor_op(op: BinOp) -> bool {
    op is Mul || op is Div
}

/// A primary expression is a multiplicative one, and a multiplicative
/// expression is an additive one. Joining an expression of a level and one of
/// the next level by an operator of the first gives an expression of that
/// level, worth the result of the operation on what the two are worth.
pub proof fn lemma_joined(e: Expr)
    ensures
        is_primary(e) ==> is_multiplicative(e),
        is_multiplicative(e) ==> is_additive(e),
        e matches Expr::Binary(op, left, right) ==> {
            &&& is_factor_op(op) && is_multiplicative(*left) && is_primary(*right)
                ==> is_multiplicative(e)
            &&& is_term_op(op) && is_additive(*left) && is_multiplicative(*right) ==> is_additive(e)
            &&& tokens_of(e) == tokens_of(*left) + seq![symbol_of(op)] + tokens_of(*right)
            &&& forall|slots: Map<Seq<char>, Bits>, g: spec_fn(BinOp, Bits, Bits) -> Bits|
                #[trigger] value_of(e, slots, g) == g(
                    op,
                    value_of(*left, slots, g),
                    value_of(*right, slots, g),
                )
        },
{
}

/// A line of two numbers with an operator between them is worth the result
/// of that operation on the two numbers, left operand first.
pub proof fn lemma_binary_operation(
    a: Bits,
    op: BinOp,
    b: Bits,
    slots: Map<Seq<char>, Bits>,
    g: spec_fn(BinOp, Bits, Bits) -> Bits,
)
    ensures
        expression_value(seq![Lexeme::Number(a), symbol_of(op), Lexeme::Number(b)], slots, g)
            == Ok::<Bits, CalcError>(g(op, a, b)),
{
    let e = Expr::Binary(op, Box::new(Expr::Number(a)), Box::new(Expr::Number(b)));
    lemma_joined(Expr::Number(a));
    lemma_joined(Expr::Number(b));
    lemma_joined(e);
    assert(tokens_of(Expr::Number(a)) == seq![Lexeme::Number(a)]);
    assert(tokens_of(Expr::Number(b)) == seq![Lexeme::Number(b)]);
    assert(tokens_of(e) =~= seq![Lexeme::Number(a), symbol_of(op), Lexeme::Number(b)]);
    lemma_spelled_expression_is_read(e);
}

/// Multiplication and division bind tighter than addition and subtraction:
/// `p + q * r` is worth `p + (q * r)`, whichever side the product stands on.
pub proof fn lemma_factors_bind_tighter(
    p: Expr,
    q: Expr,
    r: Expr,
    term: BinOp,
    factor: BinOp,
    slots: Map<Seq<char>, Bits>,
    g: spec_fn(BinOp, Bits, Bits) -> Bits,
)
    requires
        is_primary(p),
        is_primary(q),
        is_primary(r),
        is_term_op(term),
        is_factor_op(factor),
    ensures
        expression_value(
            tokens_of(p) + seq![symbol_of(term)] + tokens_of(q) + seq![symbol_of(factor)]
                + tokens_of(r),
            slots,
            g,
        ) == Ok::<Bits, CalcError>(
            g(term, value_of(p, slots, g), g(factor, value_of(q, slots, g), value_of(r, slots, g))),
        ),
        expression_value(
            tokens_of(p) + seq![symbol_of(factor)] + tokens_of(q) + seq![symbol_of(term)]
                + tokens_of(r),
            slots,
            g,
        ) == Ok::<Bits, CalcError>(
            g(term, g(factor, value_of(p, slots, g), value_of(q, slots, g)), value_of(r, slots, g)),
        ),
{
    lemma_joined(p);
    lemma_joined(q);
    lemma_joined(r);
    let product = Expr::Binary(factor, Box::new(q), Box::new(r));
    let right = Expr::Binary(term, Box::new(p), Box::new(product));
    lemma_joined(product);
    lemma_joined(right);
    assert(tokens_of(right) =~= tokens_of(p) + seq![symbol_of(term)] + tokens_of(q)
        + seq![symbol_of(factor)] + tokens_of(r));
    lemma_spelled_expression_is_read(right);
    let product = Expr::Binary(factor, Box::new(p), Box::new(q));
    let left = Expr::Binary(term, Box::new(product), Box::new(r));
    lemma_joined(product);
    lemma_joined(left);
    assert(tokens_of(left) =~= tokens_of(p) + seq![symbol_of(factor)] + tokens_of(q)
        + seq![symbol_of(term)] + tokens_of(r));
    lemma_spelled_expression_is_read(left);
}

/// Operators of one level are applied from left to right: `p - q + r` is
/// worth `(p - q) + r`, and `p / q * r` is worth `(p / q) * r`.
pub proof fn lemma_left_to_right(
    p: Expr,
    q: Expr,
    r: Expr,
    first: BinOp,
    second: BinOp,
    slots: Map<Seq<char>, Bits>,
    g: spec_fn(BinOp, Bits, Bits) -> Bits,
)
    requires
        is_primary(p),
        is_primary(q),
        is_primary(r),
        is_term_op(first) == is_term_op(second),
    ensures
        expression_value(
            tokens_of(p) + seq![symbol_of(first)] + tokens_of(q) + seq![symbol_of(second)]
                + tokens_of(r),
            slots,
            g,
        ) == Ok::<Bits, CalcError>(
            g(
                second,
                g(first, value_of(p, slots, g), value_of(q, slots, g)),
                value_of(r, slots, g),
            ),
        ),
{
    lemma_joined(p);
    lemma_joined(q);
    lemma_joined(r);
    let inner = Expr::Binary(first, Box::new(p), Box::new(q));
    let e = Expr::Binary(second, Box::new(inner), Box::new(r));
    lemma_joined(inner);
    lemma_joined(e);
    assert(tokens_of(e) =~= tokens_of(p) + seq![symbol_of(first)] + tokens_of(q)
        + seq![symbol_of(second)] + tokens_of(r));
    lemma_spelled_expression_is_read(e);
}

/// Parentheses bind tightest: an expression in parentheses is a primary
/// expression, worth what the expression inside is worth, so that
/// `( p + q ) * r` is worth `(p + q) * r`.
pub proof fn lemma_parentheses_group(
    inner: Expr,
    slots: Map<Seq<char>, Bits>,
    g: spec_fn(BinOp, Bits, Bits) -> Bits,
)
    requires
        is_additive(inner),
    ensures
        is_primary(Expr::Group(Box::new(inner))),
        tokens_of(Expr::Group(Box::new(inner))) == seq![Lexeme::LParen] + tokens_of(inner)
            + seq![Lexeme::RParen],
        value_of(Expr::Group(Box::new(inner)), slots, g) == value_of(inner, slots, g),
        expression_value(seq![Lexeme::LParen] + tokens_of(inner) + seq![Lexeme::RParen], slots, g)
            == Ok::<Bits, CalcError>(value_of(inner, slots, g)),
{
    let e = Expr::Group(Box::new(inner));
    lemma_joined(e);
    assert(is_primary(e));
    lemma_spelled_expression_is_read(e);
}

} // verus!
