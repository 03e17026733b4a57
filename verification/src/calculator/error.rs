//! What can be wrong with a line.

use vstd::prelude::*;

verus! {

/// Why a line could not be tokenized or evaluated.
///
/// Positions count from zero: words for `InvalidNumber`, tokens for the others.
#[derive(Clone, Copy, Debug, PartialEq, Eq, Structural)]
pub enum CalcError {
    /// The word at this position is no operator, parenthesis or memory form,
    /// and the literal reader did not accept it as a number.
    InvalidNumber(usize),
    /// An operand was expected where the tokens end.
    UnexpectedEnd,
    /// An operand was expected at this position, and the token there cannot
    /// begin one.
    UnexpectedToken(usize),
    /// A closing parenthesis was expected at this position.
    ExpectedCloseParen(usize),
    /// The expression ends before this position, and tokens are left over.
    TrailingTokens(usize),
}

} // verus!
