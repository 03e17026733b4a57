//! Tokens, and how a word of a line becomes one.

use vstd::prelude::*;
use vstd::string::*;
use crate::calculator::error::CalcError;
use crate::calculator::number::{accepts_all, reads, Bits};
use crate::calculator::words::{remaining, split_words, texts, words};

verus! {

/// A token as the contracts see it: slot names are sequences of
/// characters.
pub enum Lexeme {
    Number(Bits),
    MemoryRef(Seq<char>),
    MemoryPlus(Seq<char>),
    MemoryMinus(Seq<char>),
    Plus,
    Minus,
    Asterisk,
    Slash,
    LParen,
    RParen,
}

/// One word of a line, classified.
#[derive(Debug, PartialEq)]
pub enum Token {
    /// A numeric literal.
    Number(Bits),
    /// A reference to the memory slot of this name.
    MemoryRef(String),
    /// The command that adds the previous result to the slot of this name.
    MemoryPlus(String),
    /// The command that subtracts the previous result from the slot of this
    /// name.
    MemoryMinus(String),
    Plus,
    Minus,
    Asterisk,
    Slash,
    LParen,
    RParen,
}

impl View for Token {
    type V = Lexeme;

    open spec fn view(&self) -> Lexeme {
        match self {
            Token::Number(bits) => Lexeme::Number(*bits),
            Token::MemoryRef(name) => Lexeme::MemoryRef(name@),
            Token::MemoryPlus(name) => Lexeme::MemoryPlus(name@),
            Token::MemoryMinus(name) => Lexeme::MemoryMinus(name@),
            Token::Plus => Lexeme::Plus,
            Token::Minus => Lexeme::Minus,
            Token::Asterisk => Lexeme::Asterisk,
            Token::Slash => Lexeme::Slash,
            Token::LParen => Lexeme::LParen,
            Token::RParen => Lexeme::RParen,
        }
    }
}

/// The lexemes of a sequence of tokens.
pub open spec fn lexemes(tokens: Seq<Token>) -> Seq<Lexeme> {
    Seq::new(tokens.len(), |i: int| tokens[i]@)
}

/// The lexeme of a token that may be missing.
pub open spec fn lexeme_of(token: Option<Token>) -> Option<Lexeme> {
    match token {
        Some(t) => Some(t@),
        None => None,
    }
}

/// What the literal reader must have returned for a token to come out as it
/// did: the number of a numeric literal, or nothing where no token came out.
pub open spec fn number_of(token: Option<Token>) -> Option<Bits> {
    match token {
        Some(Token::Number(bits)) => Some(bits),
        _ => None,
    }
}

/// The operator or parenthesis that the word `w` spells, if it spells one.
pub open spec fn symbol(w: Seq<char>) -> Option<Lexeme> {
    if w.len() != 1 {
        None
    } else if w[0] == '+' {
        Some(Lexeme::Plus)
    } else if w[0] == '-' {
        Some(Lexeme::Minus)
    } else if w[0] == '*' {
        Some(Lexeme::Asterisk)
    } else if w[0] == '/' {
        Some(Lexeme::Slash)
    } else if w[0] == '(' {
        Some(Lexeme::LParen)
    } else if w[0] == ')' {
        Some(Lexeme::RParen)
    } else {
        None
    }
}

/// The word `w` begins with the three characters `mem`.
pub open spec fn has_memory_prefix(w: Seq<char>) -> bool {
    w.len() >= 3 && w[0] == 'm' && w[1] == 'e' && w[2] == 'm'
}

/// The memory token that a word with the prefix `mem` spells. A last
/// character `+` or `-` makes it a command and is no part of the name; what
/// lies between is the name, which may be empty and may hold `+` and `-`.
pub open spec fn memory_form(w: Seq<char>) -> Lexeme
    recommends
        has_memory_prefix(w),
{
    if w.last() == '+' {
        Lexeme::MemoryPlus(w.subrange(3, w.len() - 1))
    } else if w.last() == '-' {
        Lexeme::MemoryMinus(w.subrange(3, w.len() - 1))
    } else {
        Lexeme::MemoryRef(w.subrange(3, w.len() as int))
    }
}

/// The token that the word `w` spells whatever the literal reader says:
/// an operator, a parenthesis or a memory form. `None` for every other word.
pub open spec fn keyword(w: Seq<char>) -> Option<Lexeme> {
    if symbol(w) is Some {
        symbol(w)
    } else if has_memory_prefix(w) {
        Some(memory_form(w))
    } else {
        None
    }
}

/// The token that the word `w` spells when numeric literals are read by `n`:
/// its keyword if it has one, else the number that `n` reads from it. `None`
/// where `w` is no keyword and `n` reads no number from it.
pub open spec fn classify(w: Seq<char>, n: spec_fn(Seq<char>) -> Option<Bits>) -> Option<Lexeme> {
    if keyword(w) is Some {
        keyword(w)
    } else {
        match n(w) {
            Some(bits) => Some(Lexeme::Number(bits)),
            None => None,
        }
    }
}

/// The word `w` may spell the token `token`: its keyword if it has one, else
/// a number.
pub open spec fn spells(w: Seq<char>, token: Token) -> bool {
    if keyword(w) is Some {
        Some(token@) == keyword(w)
    } else {
        token is Number
    }
}

/// The position of the first word from `k` on that spells no token when
/// numeric literals are read by `n`; the number of words if there is none.
pub open spec fn first_rejected(
    ws: Seq<Seq<char>>,
    n: spec_fn(Seq<char>) -> Option<Bits>,
    k: int,
) -> int
    decreases remaining(ws, k),
{
    if 0 <= k < ws.len() && classify(ws[k], n) is Some {
        first_rejected(ws, n, k + 1)
    } else {
        k
    }
}

/// The tokens of a line when numeric literals are read by `n`: one for each
/// word, in order. Where a word spells no token, the line is rejected with
/// the position of the first such word.
pub open spec fn tokenize(text: Seq<char>, n: spec_fn(Seq<char>) -> Option<Bits>) -> Result<
    Seq<Lexeme>,
    CalcError,
> {
    let ws = words(text);
    let bad = first_rejected(ws, n, 0);
    if bad < ws.len() {
        Err(CalcError::InvalidNumber(bad as usize))
    } else {
        Ok(Seq::new(ws.len(), |k: int| classify(ws[k], n)->Some_0))
    }
}

/// The lexemes of the tokens of a line that was accepted, or the error of one
/// that was not.
pub open spec fn lexemes_of(r: Result<Vec<Token>, CalcError>) -> Result<Seq<Lexeme>, CalcError> {
    match r {
        Ok(tokens) => Ok(lexemes(tokens@)),
        Err(e) => Err(e),
    }
}

impl Token {
    /// Classifies one word. Operators and parentheses come first, then the
    /// memory forms; every other word is handed to the literal reader.
    pub fn parse<R: Fn(&str) -> Option<Bits>>(value: &str, read: &R) -> (token: Option<Token>)
        requires
            accepts_all(read),
        ensures
            keyword(value@) is Some ==> lexeme_of(token) == keyword(value@),
            keyword(value@) is None ==> (token is None || token->Some_0 is Number)
                && call_ensures(*read, (value,), number_of(token)),
            forall|n: spec_fn(Seq<char>) -> Option<Bits>| #[trigger]
                reads(read, n) ==> lexeme_of(token) == classify(value@, n),
    {
        let len = value.unicode_len();
        if len == 1 {
            let c = value.get_char(0);
            if c == '+' {
                return Some(Token::Plus);
            } else if c == '-' {
                return Some(Token::Minus);
            } else if c == '*' {
                return Some(Token::Asterisk);
            } else if c == '/' {
                return Some(Token::Slash);
            } else if c == '(' {
                return Some(Token::LParen);
            } else if c == ')' {
                return Some(Token::RParen);
            }
        }
        if len >= 3 && value.get_char(0) == 'm' && value.get_char(1) == 'e' && value.get_char(2)
            == 'm' {
            let last = value.get_char(len - 1);
            if last == '+' {
                Some(Token::MemoryPlus(value.substring_char(3, len - 1).to_owned()))
            } else if last == '-' {
                Some(Token::MemoryMinus(value.substring_char(3, len - 1).to_owned()))
            } else {
                Some(Token::MemoryRef(value.substring_char(3, len).to_owned()))
            }
        } else {
            match read(value) {
                Some(bits) => Some(Token::Number(bits)),
                None => None,
            }
        }
    }

    /// Splits a line at white space and classifies each word, in order.
    pub fn split<R: Fn(&str) -> Option<Bits>>(text: &str, read: &R) -> (r: Result<
        Vec<Token>,
        CalcError,
    >)
        requires
            accepts_all(read),
        ensures
            forall|n: spec_fn(Seq<char>) -> Option<Bits>| #[trigger]
                reads(read, n) ==> lexemes_of(r) == tokenize(text@, n),
            match r {
                Ok(tokens) => {
                    &&& tokens.len() == words(text@).len()
                    &&& forall|k: int|
                        0 <= k < tokens.len() ==> spells(words(text@)[k], #[trigger] tokens[k])
                },
                Err(error) => {
                    &&& error matches CalcError::InvalidNumber(k)
                    &&& k < words(text@).len()
                    &&& keyword(words(text@)[k as int]) is None
                },
            },
    {
        let found = split_words(text);
        let ghost ws = words(text@);
        let mut tokens: Vec<Token> = Vec::new();
        let mut k: usize = 0;
        while k < found.len()
            invariant
                accepts_all(read),
                ws == words(text@),
                texts(found@) == ws,
                k <= found.len(),
                tokens.len() == k,
                forall|j: int| 0 <= j < k ==> spells(ws[j], #[trigger] tokens[j]),
                forall|n: spec_fn(Seq<char>) -> Option<Bits>| #[trigger]
                    reads(read, n) ==> {
                        &&& first_rejected(ws, n, 0) == first_rejected(ws, n, k as int)
                        &&& forall|j: int|
                            0 <= j < k ==> classify(ws[j], n) == Some(#[trigger] tokens[j]@)
                    },
            decreases found.len() - k,
        {
            assert(ws[k as int] == found[k as int]@);
            match Token::parse(found[k], read) {
                Some(token) => {
                    tokens.push(token);
                },
                None => {
                    return Err(CalcError::InvalidNumber(k));
                },
            }
            k += 1;
        }
        proof {
            assert forall|n: spec_fn(Seq<char>) -> Option<Bits>| #[trigger]
                reads(read, n) implies lexemes_of(Ok(tokens)) == tokenize(text@, n) by {
                assert(first_rejected(ws, n, 0) == ws.len());
                assert(lexemes(tokens@) =~= Seq::new(
                    ws.len(),
                    |k: int| classify(ws[k], n)->Some_0,
                ));
            }
        }
        Ok(tokens)
    }
}

} // verus!
