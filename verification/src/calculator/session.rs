//! A session: the memory store and the previous result, and what one line
//! does to them.

use vstd::prelude::*;
use crate::calculator::error::CalcError;
use crate::calculator::eval::{eval_expression, evaluates};
use crate::calculator::memory::{accumulate, accumulated, recall, Memory};
use crate::calculator::number::{
    accepts_all,
    computes,
    negate,
    negated,
    reads,
    total,
    BinOp,
    Bits,
    ZERO,
};
use crate::calculator::syntax::{
    additive_tail,
    expression_value,
    multiplicative_tail,
    parse_expression,
    parse_multiplicative,
    parse_primary,
    value_of,
    Expr,
};
use crate::calculator::token::{lexemes, tokenize, Lexeme, Token};

verus! {

/// What the driver does after a line.
#[derive(Clone, Copy, Debug, PartialEq, Eq, Structural)]
pub enum Reply {
    /// Print this number and read the next line.
    Print(Bits),
    /// The line was empty: end the session and print nothing.
    Quit,
}

/// A session as the contracts see it.
pub struct SessionState {
    /// The memory slots that were written, with what they hold.
    pub slots: Map<Seq<char>, Bits>,
    /// The value of the last line that was evaluated as an expression.
    pub previous: Bits,
}

/// The state of a calculator between two lines.
pub struct Session {
    memory: Memory,
    previous: Bits,
}

impl View for Session {
    type V = SessionState;

    closed spec fn view(&self) -> SessionState {
        SessionState { slots: self.memory@, previous: self.previous }
    }
}

/// The memory command that a line is, if it is one: the slot's name, and
/// whether the previous result is subtracted. A line is a command when its
/// first token is one; what follows that token is not looked at.
pub open spec fn command_of(ts: Seq<Lexeme>) -> Option<(Seq<char>, bool)> {
    if ts.len() == 0 {
        None
    } else {
        match ts[0] {
            Lexeme::MemoryPlus(name) => Some((name, false)),
            Lexeme::MemoryMinus(name) => Some((name, true)),
            _ => None,
        }
    }
}

/// What the tokens of a line do to a session when operations are carried out
/// by `g`: the session after the line and the number to print, or the error
/// of a line that is rejected.
///
/// A memory command accumulates the previous result, negated for a
/// subtraction, into its slot, prints what the slot then holds, and keeps the
/// previous result. Every other line is evaluated as an expression; its
/// value is printed and becomes the previous result, and no slot changes.
pub open spec fn run(state: SessionState, ts: Seq<Lexeme>, g: spec_fn(BinOp, Bits, Bits) -> Bits)
    -> Result<(SessionState, Bits), CalcError> {
    match command_of(ts) {
        Some((name, subtract)) => {
            let delta = if subtract {
                negated(state.previous)
            } else {
                state.previous
            };
            Ok(
                (
                    SessionState {
                        slots: accumulate(state.slots, name, delta, g),
                        previous: state.previous,
                    },
                    accumulated(state.slots, name, delta, g),
                ),
            )
        },
        None => match parse_expression(ts) {
            Ok(e) => {
                let value = value_of(e, state.slots, g);
                Ok((SessionState { slots: state.slots, previous: value }, value))
            },
            Err(error) => Err(error),
        },
    }
}

/// What a line of text does to a session when numeric literals are read by
/// `n` and operations are carried out by `g`: the reply, and the session
/// after the line. An empty line ends the session. A line that is rejected
/// leaves the session as it was.
pub open spec fn respond(
    state: SessionState,
    line: Seq<char>,
    n: spec_fn(Seq<char>) -> Option<Bits>,
    g: spec_fn(BinOp, Bits, Bits) -> Bits,
) -> (Result<Reply, CalcError>, SessionState) {
    if line.len() == 0 {
        (Ok(Reply::Quit), state)
    } else {
        match tokenize(line, n) {
            Ok(ts) => match run(state, ts, g) {
                Ok((next, value)) => (Ok(Reply::Print(value)), next),
                Err(error) => (Err(error), state),
            },
            Err(error) => (Err(error), state),
        }
    }
}

impl Session {
    /// A session in which no slot was written and the previous result is
    /// positive zero.
    pub fn new() -> (session: Session)
        ensures
            session@.slots == Map::<Seq<char>, Bits>::empty(),
            session@.previous == ZERO,
    {
        Session { memory: Memory::new(), previous: ZERO }
    }

    /// The value of the last line that was evaluated as an expression.
    pub fn previous(&self) -> (value: Bits)
        ensures
            value == self@.previous,
    {
        self.previous
    }

    /// The memory store.
    pub fn memory(&self) -> (memory: &Memory)
        ensures
            memory@ == self@.slots,
    {
        &self.memory
    }

    /// Processes the tokens of one line and returns the number to print.
    pub fn evaluate<F: Fn(BinOp, Bits, Bits) -> Bits>(&mut self, tokens: &[Token], arith: &F) -> (r:
        Result<Bits, CalcError>)
        requires
            total(arith),
        ensures
            match command_of(lexemes(tokens@)) {
                Some((name, subtract)) => {
                    let delta = if subtract {
                        negated(old(self)@.previous)
                    } else {
                        old(self)@.previous
                    };
                    &&& r is Ok
                    &&& final(self)@.previous == old(self)@.previous
                    &&& final(self)@.slots == old(self)@.slots.insert(name, r->Ok_0)
                    &&& if old(self)@.slots.contains_key(name) {
                        call_ensures(*arith, (BinOp::Add, old(self)@.slots[name], delta), r->Ok_0)
                    } else {
                        r->Ok_0 == delta
                    }
                },
                None => {
                    &&& evaluates(r, parse_expression(lexemes(tokens@)), old(self)@.slots, arith)
                    &&& final(self)@.slots == old(self)@.slots
                    &&& final(self)@.previous == match r {
                        Ok(value) => value,
                        Err(_) => old(self)@.previous,
                    }
                },
            },
            forall|g: spec_fn(BinOp, Bits, Bits) -> Bits| #[trigger]
                computes(arith, g) ==> match run(old(self)@, lexemes(tokens@), g) {
                    Ok((state, value)) => r == Ok::<Bits, CalcError>(value) && final(self)@
                        == state,
                    Err(error) => r == Err::<Bits, CalcError>(error) && final(self)@ == old(
                        self,
                    )@,
                },
    {
        if tokens.len() > 0 {
            assert(lexemes(tokens@)[0] == tokens[0]@);
            match &tokens[0] {
                Token::MemoryPlus(memory_name) => {
                    let memorized = self.memory.add(memory_name.as_str(), self.previous, arith);
                    return Ok(memorized);
                },
                Token::MemoryMinus(memory_name) => {
                    let memorized = self.memory.add(
                        memory_name.as_str(),
                        negate(self.previous),
                        arith,
                    );
                    return Ok(memorized);
                },
                _ => {},
            }
        }
        match eval_expression(tokens, &self.memory, arith) {
            Ok(current_result) => {
                self.previous = current_result;
                Ok(current_result)
            },
            Err(error) => Err(error),
        }
    }

    /// Processes one line of text: an empty line ends the session, every
    /// other line is split into tokens and processed.
    pub fn feed<R: Fn(&str) -> Option<Bits>, F: Fn(BinOp, Bits, Bits) -> Bits>(
        &mut self,
        line: &str,
        read: &R,
        arith: &F,
    ) -> (r: Result<Reply, CalcError>)
        requires
            accepts_all(read),
            total(arith),
        ensures
            line@.len() == 0 ==> r == Ok::<Reply, CalcError>(Reply::Quit),
            line@.len() > 0 ==> r != Ok::<Reply, CalcError>(Reply::Quit),
            !(r matches Ok(Reply::Print(_))) ==> final(self)@ == old(self)@,
            forall|n: spec_fn(Seq<char>) -> Option<Bits>, g: spec_fn(BinOp, Bits, Bits) -> Bits|
                #![trigger reads(read, n), computes(arith, g)]
                reads(read, n) && computes(arith, g) ==> (r, final(self)@) == respond(
                    old(self)@,
                    line@,
                    n,
                    g,
                ),
    {
        if line.is_empty() {
            return Ok(Reply::Quit);
        }
        match Token::split(line, read) {
            Ok(tokens) => match self.evaluate(tokens.as_slice(), arith) {
                Ok(value) => Ok(Reply::Print(value)),
                Err(error) => Err(error),
            },
            Err(error) => Err(error),
        }
    }
}

/// A memory command never fails, keeps the previous result, and changes no
/// slot but its own.
pub proof fn lemma_command_keeps_previous(
    state: SessionState,
    ts: Seq<Lexeme>,
    g: spec_fn(BinOp, Bits, Bits) -> Bits,
    other: Seq<char>,
)
    requires
        command_of(ts) is Some,
    ensures
        run(state, ts, g) is Ok,
        run(state, ts, g)->Ok_0.0.previous == state.previous,
        other != command_of(ts)->Some_0.0 ==> recall(run(state, ts, g)->Ok_0.0.slots, other)
            == recall(state.slots, other),
{
}

/// A line that is evaluated as an expression changes no slot, and its value
/// becomes the previous result.
pub proof fn lemma_expression_sets_previous(
    state: SessionState,
    ts: Seq<Lexeme>,
    g: spec_fn(BinOp, Bits, Bits) -> Bits,
)
    requires
        command_of(ts) is None,
    ensures
        run(state, ts, g) matches Ok((next, value)) ==> next.slots == state.slots && next.previous
            == value && Ok::<Bits, CalcError>(value) == expression_value(ts, state.slots, g),
        run(state, ts, g) is Err <==> parse_expression(ts) is Err,
{
}

/// Storing the previous result in a slot that was never written, and then
/// referring to that slot, gives the previous result both times; the
/// previous result is the same before and after.
pub proof fn lemma_stored_result_is_recalled(
    state: SessionState,
    name: Seq<char>,
    g: spec_fn(BinOp, Bits, Bits) -> Bits,
)
    requires
        !state.slots.contains_key(name),
    ensures
        ({
            let stored = run(state, seq![Lexeme::MemoryPlus(name)], g);
            let recalled = run(stored->Ok_0.0, seq![Lexeme::MemoryRef(name)], g);
            &&& stored is Ok
            &&& stored->Ok_0.1 == state.previous
            &&& stored->Ok_0.0.previous == state.previous
            &&& recalled is Ok
            &&& recalled->Ok_0.1 == state.previous
            &&& recalled->Ok_0.0.previous == state.previous
        }),
{
    let ts = seq![Lexeme::MemoryRef(name)];
    assert(ts[0] == Lexeme::MemoryRef(name));
    assert(parse_primary(ts, 0) == Ok::<(Expr, nat), CalcError>((Expr::MemoryRef(name), 1)));
    assert(multiplicative_tail(ts, Expr::MemoryRef(name), 1) == Ok::<(Expr, nat), CalcError>(
        (Expr::MemoryRef(name), 0),
    ));
    assert(additive_tail(ts, Expr::MemoryRef(name), 1) == Ok::<(Expr, nat), CalcError>(
        (Expr::MemoryRef(name), 0),
    ));
    assert(parse_multiplicative(ts, 0) == Ok::<(Expr, nat), CalcError>(
        (Expr::MemoryRef(name), 1),
    ));
    assert(parse_expression(ts) == Ok::<Expr, CalcError>(Expr::MemoryRef(name)));
}

/// An empty line ends the session and leaves it as it was; a line that is
/// rejected leaves it as it was, too.
pub proof fn lemma_quit_and_errors_change_nothing(
    state: SessionState,
    line: Seq<char>,
    n: spec_fn(Seq<char>) -> Option<Bits>,
    g: spec_fn(BinOp, Bits, Bits) -> Bits,
)
    ensures
        line.len() == 0 <==> respond(state, line, n, g).0 == Ok::<Reply, CalcError>(Reply::Quit),
        !(respond(state, line, n, g).0 matches Ok(Reply::Print(_))) ==> respond(
            state,
            line,
            n,
            g,
        ).1 == state,
{
}

} // verus!
