use my_library::calculator::error::CalcError;
use my_library::calculator::eval::eval_expression;
use my_library::calculator::memory::Memory;
use my_library::calculator::number::{negate, BinOp};
use my_library::calculator::session::{Reply, Session};
use my_library::calculator::token::Token;
use my_library::calculator::words::{is_whitespace, split_words};

/// IEEE-754 arithmetic on bit patterns.
fn ieee(op: BinOp, a: u64, b: u64) -> u64 {
    let (x, y) = (f64::from_bits(a), f64::from_bits(b));
    let z = match op {
        BinOp::Add => x + y,
        BinOp::Sub => x - y,
        BinOp::Mul => x * y,
        BinOp::Div => x / y,
    };
    z.to_bits()
}

/// Reads a numeric literal as the standard library does.
fn literal(text: &str) -> Option<u64> {
    text.parse::<f64>().ok().map(f64::to_bits)
}

fn num(value: f64) -> Token {
    Token::Number(value.to_bits())
}

fn split(text: &str) -> Result<Vec<Token>, CalcError> {
    Token::split(text, &literal)
}

fn eval(tokens: &[Token], memory: &Memory) -> Result<f64, CalcError> {
    eval_expression(tokens, memory, &ieee).map(f64::from_bits)
}

fn eval_text(text: &str, memory: &Memory) -> Result<f64, CalcError> {
    eval(&split(text)?, memory)
}

fn feed(session: &mut Session, line: &str) -> Result<Reply, CalcError> {
    session.feed(line, &literal, &ieee)
}

fn printed(value: f64) -> Result<Reply, CalcError> {
    Ok(Reply::Print(value.to_bits()))
}

/// メモリに任意の名称で数値を保存できる
#[test]
fn memory_stores_a_number_under_any_name() {
    // Arrange
    let mut sut = Memory::new();

    // Act
    let actual = f64::from_bits(sut.add("Hoge", 123.0f64.to_bits(), &ieee));

    // Assert
    assert_eq!(actual, 123.0);
    assert_eq!(f64::from_bits(sut.get("Hoge")), 123.0);
}

/// メモリに保存済の値に加算した数値を上書き保存できる
#[test]
fn memory_overwrites_a_stored_value_with_the_sum() {
    // Arrange
    let mut sut = Memory::new();
    sut.add("Fuga", 111.1f64.to_bits(), &ieee);

    // Act
    let actual = f64::from_bits(sut.add("Fuga", 123.45f64.to_bits(), &ieee));

    // Assert
    assert_eq!(actual, 234.55);
    assert_eq!(f64::from_bits(sut.get("Fuga")), 234.55);
}

/// メモリに保存済の値から減算した数値を上書き保存できる
#[test]
fn memory_overwrites_a_stored_value_with_the_difference() {
    // Arrange
    let mut sut = Memory::new();
    sut.add("Piyo", 123.45f64.to_bits(), &ieee);

    // Act
    let actual = f64::from_bits(sut.add("Piyo", (-123.45f64).to_bits(), &ieee));

    // Assert
    assert_eq!(actual, 0.0);
    assert_eq!(f64::from_bits(sut.get("Piyo")), 0.0);
}

/// トークン列の分割ができる_数値のみ
#[test]
fn tokens_are_split_numbers_only() {
    assert_eq!(split("1 + 2"), Ok(vec![num(1.0), Token::Plus, num(2.0)]));
    assert_eq!(split("1.5 - 2.3"), Ok(vec![num(1.5), Token::Minus, num(2.3)]));
    assert_eq!(split("0.1 * 9.0"), Ok(vec![num(0.1), Token::Asterisk, num(9.0)]));
    assert_eq!(split("6.7 / 4.89"), Ok(vec![num(6.7), Token::Slash, num(4.89)]));
}

/// トークン列の分割ができる_メモリへの加減算
#[test]
fn tokens_are_split_memory_plus_and_minus() {
    assert_eq!(split("memABC+"), Ok(vec![Token::MemoryPlus("ABC".to_string())]));
    assert_eq!(split("memxyz-"), Ok(vec![Token::MemoryMinus("xyz".to_string())]));
}

/// トークン列の分割ができる_メモリの参照
#[test]
fn tokens_are_split_memory_reference() {
    assert_eq!(
        split("mem_ijk + mem+OPQ"),
        Ok(vec![
            Token::MemoryRef("_ijk".to_string()),
            Token::Plus,
            Token::MemoryRef("+OPQ".to_string()),
        ])
    );
}

/// トークン列の分割ができる_括弧入り
#[test]
fn tokens_are_split_with_parentheses() {
    assert_eq!(
        split("( 1 + memTEST ) / 10"),
        Ok(vec![
            Token::LParen,
            num(1.0),
            Token::Plus,
            Token::MemoryRef("TEST".to_string()),
            Token::RParen,
            Token::Slash,
            num(10.0),
        ])
    );
}

/// 指定した演算子に基づいて二項の計算が正しく行われる
#[test]
fn binary_operation_follows_the_given_operator() {
    let _dummy = Memory::new();
    assert_eq!(eval(&[num(1.0), Token::Plus, num(2.0)], &_dummy), Ok(3.0));
    assert_eq!(eval(&[num(1.0), Token::Minus, num(2.0)], &_dummy), Ok(-1.0));
    assert_eq!(eval(&[num(1.0), Token::Asterisk, num(2.0)], &_dummy), Ok(2.0));
    assert_eq!(eval(&[num(1.0), Token::Slash, num(2.0)], &_dummy), Ok(0.5));
}

/// 指定したトークン列で表される式の計算が正しく行われる
#[test]
fn expression_of_given_tokens_is_evaluated() {
    let _dummy = Memory::new();
    // 1 * 2 * 3 - 4 * 5 + 6 * 7 + 8 * 9
    assert_eq!(
        eval(
            &[
                num(1.0),
                Token::Asterisk,
                num(2.0),
                Token::Asterisk,
                num(3.0),
                Token::Minus,
                num(4.0),
                Token::Asterisk,
                num(5.0),
                Token::Plus,
                num(6.0),
                Token::Asterisk,
                num(7.0),
                Token::Plus,
                num(8.0),
                Token::Asterisk,
                num(9.0),
            ],
            &_dummy
        ),
        Ok(100.0)
    );
    // 1 + 2 + 3 + 4 + ( 5 + 6 + 7 - 8 ) * 9
    assert_eq!(
        eval(
            &[
                num(1.0),
                Token::Plus,
                num(2.0),
                Token::Plus,
                num(3.0),
                Token::Plus,
                num(4.0),
                Token::Plus,
                Token::LParen,
                num(5.0),
                Token::Plus,
                num(6.0),
                Token::Plus,
                num(7.0),
                Token::Minus,
                num(8.0),
                Token::RParen,
                Token::Asterisk,
                num(9.0),
            ],
            &_dummy
        ),
        Ok(100.0)
    );
    // memA (4.7) + 3 * memB (1)
    let mut memory = Memory::new();
    memory.add("A", 4.7f64.to_bits(), &ieee);
    memory.add("B", 1.0f64.to_bits(), &ieee);
    assert_eq!(
        eval(
            &[
                Token::MemoryRef("A".to_string()),
                Token::Plus,
                num(3.0),
                Token::Asterisk,
                Token::MemoryRef("B".to_string()),
            ],
            &memory
        ),
        Ok(7.7)
    );
}

#[test]
fn binary_operation_on_text_gives_the_ieee_result() {
    let memory = Memory::new();
    let samples = [0.0, -0.0, 1.0, -2.5, 0.1, 3.0e300, -7.25e-310, 1.0e308, f64::MAX];
    for left in samples {
        for right in samples {
            let cases = [
                ("+", left + right),
                ("-", left - right),
                ("*", left * right),
                ("/", left / right),
            ];
            for (symbol, expected) in cases {
                let line = format!("{:?} {} {:?}", left, symbol, right);
                let actual = eval_text(&line, &memory).unwrap();
                assert_eq!(actual.to_bits(), expected.to_bits(), "{}", line);
            }
        }
    }
}

#[test]
fn division_by_zero_is_no_error() {
    let memory = Memory::new();
    assert_eq!(eval_text("1 / 0", &memory), Ok(f64::INFINITY));
    assert_eq!(eval_text("-1 / 0", &memory), Ok(f64::NEG_INFINITY));
    assert!(eval_text("0 / 0", &memory).unwrap().is_nan());
}

#[test]
fn unwritten_slot_reads_as_zero() {
    let memory = Memory::new();
    assert_eq!(memory.get("never"), 0);
    assert_eq!(memory.get(""), 0);
    assert_eq!(f64::from_bits(memory.get("Hoge")), 0.0);
    assert_eq!(eval_text("memNothing", &memory), Ok(0.0));
}

#[test]
fn accumulating_twice_gives_the_sum() {
    let mut memory = Memory::new();
    assert_eq!(f64::from_bits(memory.add("S", 1.5f64.to_bits(), &ieee)), 1.5);
    assert_eq!(f64::from_bits(memory.add("S", 2.25f64.to_bits(), &ieee)), 3.75);
    assert_eq!(f64::from_bits(memory.get("S")), 3.75);
    assert_eq!(f64::from_bits(memory.add("S", 4.0f64.to_bits(), &ieee)), 7.75);
    assert_eq!(f64::from_bits(memory.get("S")), 7.75);
    assert_eq!(memory.get("T"), 0);
}

#[test]
fn accumulating_many_times_gives_the_sum_from_left_to_right() {
    let deltas: [f64; 9] = [0.1, 0.2, 0.3, 1.0e16, 1.0, -1.0e16, 2.5, -0.75, 1.0e-3];
    let mut memory = Memory::new();
    let mut expected: f64 = 0.0;
    for (count, delta) in deltas.iter().enumerate() {
        expected = if count == 0 { *delta } else { expected + *delta };
        let returned = memory.add("Sum", delta.to_bits(), &ieee);
        assert_eq!(returned, expected.to_bits());
        assert_eq!(memory.get("Sum"), expected.to_bits());
        assert_eq!(memory.get("Other"), 0);
    }
    let by_hand: f64 = 0.1 + 0.2 + 0.3 + 1.0e16 + 1.0 + -1.0e16 + 2.5 + -0.75 + 1.0e-3;
    assert_eq!(f64::from_bits(memory.get("Sum")), by_hand);
}

#[test]
fn first_write_stores_the_number_as_it_is() {
    let mut memory = Memory::new();
    let negative_zero = (-0.0f64).to_bits();
    assert_eq!(memory.add("Z", negative_zero, &ieee), negative_zero);
    assert_eq!(memory.get("Z"), negative_zero);
}

#[test]
fn slot_names_are_case_sensitive() {
    let mut memory = Memory::new();
    memory.add("abc", 1.0f64.to_bits(), &ieee);
    assert_eq!(f64::from_bits(memory.get("abc")), 1.0);
    assert_eq!(f64::from_bits(memory.get("ABC")), 0.0);
}

#[test]
fn parentheses_group() {
    let memory = Memory::new();
    assert_eq!(eval_text("( 1 + 2 ) * 3", &memory), Ok(9.0));
    assert_eq!(eval_text("1 + ( 2 + 3 )", &memory), Ok(6.0));
    assert_eq!(eval_text("( ( 2 ) )", &memory), Ok(2.0));
    assert_eq!(eval_text("2 * ( 3 - ( 4 - 1 ) * 2 )", &memory), Ok(-6.0));
}

#[test]
fn multiplication_binds_tighter_than_addition() {
    let memory = Memory::new();
    assert_eq!(eval_text("1 + 2 * 3", &memory), Ok(7.0));
    assert_eq!(eval_text("2 * 3 - 4 / 2", &memory), Ok(4.0));
}

#[test]
fn operators_of_one_level_go_from_left_to_right() {
    let memory = Memory::new();
    assert_eq!(eval_text("10 - 4 - 3", &memory), Ok(3.0));
    assert_eq!(eval_text("16 / 4 / 2", &memory), Ok(2.0));
    assert_eq!(eval_text("16 / 4 * 2", &memory), Ok(8.0));
    assert_eq!(eval_text("1 * 2 * 3 - 4 * 5 + 6 * 7 + 8 * 9", &memory), Ok(100.0));
}

#[test]
fn stored_result_is_recalled() {
    let mut session = Session::new();
    assert_eq!(feed(&mut session, "3 + 4"), printed(7.0));
    assert_eq!(feed(&mut session, "memFoo+"), printed(7.0));
    assert_eq!(feed(&mut session, "memFoo"), printed(7.0));
    assert_eq!(f64::from_bits(session.memory().get("Foo")), 7.0);
}

#[test]
fn memory_command_keeps_the_previous_result() {
    let mut session = Session::new();
    assert_eq!(feed(&mut session, "5 + 5"), printed(10.0));
    assert_eq!(f64::from_bits(session.previous()), 10.0);
    assert_eq!(feed(&mut session, "memX+"), printed(10.0));
    assert_eq!(f64::from_bits(session.previous()), 10.0);
    assert_eq!(feed(&mut session, "memX+"), printed(20.0));
    assert_eq!(f64::from_bits(session.previous()), 10.0);
    assert_eq!(feed(&mut session, "memX"), printed(20.0));
    assert_eq!(f64::from_bits(session.previous()), 20.0);
}

#[test]
fn memory_minus_subtracts_the_previous_result() {
    let mut session = Session::new();
    assert_eq!(feed(&mut session, "2 * 4"), printed(8.0));
    assert_eq!(feed(&mut session, "memY-"), printed(-8.0));
    assert_eq!(feed(&mut session, "memY-"), printed(-16.0));
    assert_eq!(feed(&mut session, "memY+"), printed(-8.0));
    assert_eq!(feed(&mut session, "memY * 2"), printed(-16.0));
}

#[test]
fn new_session_starts_from_zero() {
    let mut session = Session::new();
    assert_eq!(session.previous(), 0);
    assert_eq!(feed(&mut session, "memA+"), printed(0.0));
    assert_eq!(feed(&mut session, "memB-"), Ok(Reply::Print((-0.0f64).to_bits())));
}

#[test]
fn memory_command_does_not_look_past_its_first_token() {
    let mut session = Session::new();
    assert_eq!(feed(&mut session, "6"), printed(6.0));
    assert_eq!(feed(&mut session, "memK+ ) 1 2 *"), printed(6.0));
    let tokens = [Token::MemoryMinus("K".to_string()), Token::RParen];
    assert_eq!(session.evaluate(&tokens, &ieee), Ok(0.0f64.to_bits()));
}

#[test]
fn empty_line_ends_the_session() {
    let mut session = Session::new();
    assert_eq!(feed(&mut session, "1 + 1"), printed(2.0));
    assert_eq!(feed(&mut session, ""), Ok(Reply::Quit));
    assert_eq!(f64::from_bits(session.previous()), 2.0);
}

#[test]
fn rejected_line_changes_nothing() {
    let mut session = Session::new();
    assert_eq!(feed(&mut session, "4"), printed(4.0));
    assert_eq!(feed(&mut session, "memM+"), printed(4.0));
    assert_eq!(feed(&mut session, "1 + x"), Err(CalcError::InvalidNumber(2)));
    assert_eq!(feed(&mut session, "1 +"), Err(CalcError::UnexpectedEnd));
    assert_eq!(feed(&mut session, "   "), Err(CalcError::UnexpectedEnd));
    assert_eq!(feed(&mut session, "memM+ oops"), Err(CalcError::InvalidNumber(1)));
    assert_eq!(f64::from_bits(session.previous()), 4.0);
    assert_eq!(f64::from_bits(session.memory().get("M")), 4.0);
}

#[test]
fn each_error_names_its_position() {
    let memory = Memory::new();
    assert_eq!(split("1 + abc"), Err(CalcError::InvalidNumber(2)));
    assert_eq!(split("x y"), Err(CalcError::InvalidNumber(0)));
    assert_eq!(split("1 ++ 2"), Err(CalcError::InvalidNumber(1)));
    assert_eq!(eval(&[], &memory), Err(CalcError::UnexpectedEnd));
    assert_eq!(eval_text("1 +", &memory), Err(CalcError::UnexpectedEnd));
    assert_eq!(eval_text("( 1 + (", &memory), Err(CalcError::UnexpectedEnd));
    assert_eq!(eval_text("* 2", &memory), Err(CalcError::UnexpectedToken(0)));
    assert_eq!(eval_text("1 + )", &memory), Err(CalcError::UnexpectedToken(2)));
    assert_eq!(eval_text("1 + memA+", &memory), Err(CalcError::UnexpectedToken(2)));
    assert_eq!(eval_text("2 * - 3", &memory), Err(CalcError::UnexpectedToken(2)));
    assert_eq!(eval_text("( 1 + 2", &memory), Err(CalcError::ExpectedCloseParen(4)));
    assert_eq!(eval_text("( 1 2 )", &memory), Err(CalcError::ExpectedCloseParen(2)));
    assert_eq!(eval_text("1 2", &memory), Err(CalcError::TrailingTokens(1)));
    assert_eq!(eval_text("1 + 2 )", &memory), Err(CalcError::TrailingTokens(3)));
    assert_eq!(eval_text("1 memA-", &memory), Err(CalcError::TrailingTokens(1)));
}

#[test]
fn words_are_classified_in_priority_order() {
    assert_eq!(Token::parse("+", &literal), Some(Token::Plus));
    assert_eq!(Token::parse("-", &literal), Some(Token::Minus));
    assert_eq!(Token::parse("*", &literal), Some(Token::Asterisk));
    assert_eq!(Token::parse("/", &literal), Some(Token::Slash));
    assert_eq!(Token::parse("(", &literal), Some(Token::LParen));
    assert_eq!(Token::parse(")", &literal), Some(Token::RParen));
    assert_eq!(Token::parse("mem", &literal), Some(Token::MemoryRef(String::new())));
    assert_eq!(Token::parse("mem+", &literal), Some(Token::MemoryPlus(String::new())));
    assert_eq!(Token::parse("mem-", &literal), Some(Token::MemoryMinus(String::new())));
    assert_eq!(Token::parse("memA+-", &literal), Some(Token::MemoryMinus("A+".to_string())));
    assert_eq!(Token::parse("mem-A+", &literal), Some(Token::MemoryPlus("-A".to_string())));
    assert_eq!(Token::parse("memo", &literal), Some(Token::MemoryRef("o".to_string())));
    assert_eq!(Token::parse("mem棚+", &literal), Some(Token::MemoryPlus("棚".to_string())));
    assert_eq!(Token::parse("Mem", &literal), None);
    assert_eq!(Token::parse("me", &literal), None);
    assert_eq!(Token::parse("+1", &literal), Some(num(1.0)));
    assert_eq!(Token::parse("-2.5e3", &literal), Some(num(-2500.0)));
    assert_eq!(Token::parse("inf", &literal), Some(num(f64::INFINITY)));
    assert_eq!(Token::parse("1+2", &literal), None);
    assert_eq!(Token::parse("", &literal), None);
}

#[test]
fn number_words_go_through_the_reader_that_was_given() {
    let doubling = |text: &str| text.parse::<f64>().ok().map(|x| (2.0 * x).to_bits());
    assert_eq!(Token::parse("21", &doubling), Some(num(42.0)));
    assert_eq!(Token::split("1 + 2", &doubling), Ok(vec![num(2.0), Token::Plus, num(4.0)]));
    let refusing = |_: &str| None;
    assert_eq!(Token::parse("21", &refusing), None);
    assert_eq!(Token::parse("+", &refusing), Some(Token::Plus));
    assert_eq!(Token::split("( 7 )", &refusing), Err(CalcError::InvalidNumber(1)));
}

#[test]
fn operations_go_through_the_unit_that_was_given() {
    let memory = Memory::new();
    let tagging = |op: BinOp, a: u64, b: u64| match op {
        BinOp::Add => 1000 + 10 * a + b,
        BinOp::Sub => 2000 + 10 * a + b,
        BinOp::Mul => 3000 + 10 * a + b,
        BinOp::Div => 4000 + 10 * a + b,
    };
    let tokens = [Token::Number(7), Token::Minus, Token::Number(2)];
    assert_eq!(eval_expression(&tokens, &memory, &tagging), Ok(2072));
    let tokens = [Token::Number(7), Token::Slash, Token::Number(2)];
    assert_eq!(eval_expression(&tokens, &memory, &tagging), Ok(4072));
    let tokens = [Token::Number(1), Token::Plus, Token::Number(2), Token::Asterisk, Token::Number(3)];
    assert_eq!(eval_expression(&tokens, &memory, &tagging), Ok(1000 + 10 + 3023));
}

#[test]
fn negate_flips_the_sign_bit_only() {
    for value in [0.0, -0.0, 1.0, -3.5, f64::INFINITY, f64::NEG_INFINITY, f64::MIN_POSITIVE] {
        assert_eq!(negate(value.to_bits()), (-value).to_bits());
        assert_eq!(negate(negate(value.to_bits())), value.to_bits());
    }
    assert_eq!(negate(f64::NAN.to_bits()), (-f64::NAN).to_bits());
    assert_eq!(negate(0), 0x8000_0000_0000_0000);
}

#[test]
fn white_space_is_what_the_standard_library_says() {
    for code in 0..=0x10FFFFu32 {
        if let Some(c) = char::from_u32(code) {
            assert_eq!(is_whitespace(c), c.is_whitespace(), "U+{:04X}", code);
        }
    }
}

#[test]
fn lines_split_as_the_standard_library_splits_them() {
    let lines = [
        "",
        " ",
        "1 + 2",
        "  1   +\t2  ",
        "\t( memA+\u{3000}3 )\n",
        "a\u{A0}b\u{2003}c\u{85}d",
        "単語 と 空白",
        "x",
        " x",
        "x ",
    ];
    for line in lines {
        let expected: Vec<&str> = line.split_whitespace().collect();
        assert_eq!(split_words(line), expected, "{:?}", line);
    }
}

/// An expression tree of the grammar, for building lines with a known value.
enum Tree {
    Leaf(f64),
    Group(Box<Tree>),
    Node(BinOp, Box<Tree>, Box<Tree>),
}

fn next(seed: &mut u64) -> u64 {
    *seed = seed.wrapping_mul(6364136223846793005).wrapping_add(1442695040888963407);
    *seed >> 33
}

/// A tree of the given level: 0 for additive, 1 for multiplicative, 2 for primary.
fn grow(seed: &mut u64, level: u32, depth: u32) -> Tree {
    let choice = next(seed) % 3;
    match level {
        0 if depth > 0 && choice > 0 => {
            let op = if next(seed) % 2 == 0 { BinOp::Add } else { BinOp::Sub };
            Tree::Node(op, Box::new(grow(seed, 0, depth - 1)), Box::new(grow(seed, 1, depth - 1)))
        }
        0 => grow(seed, 1, depth),
        1 if depth > 0 && choice > 0 => {
            let op = if next(seed) % 2 == 0 { BinOp::Mul } else { BinOp::Div };
            Tree::Node(op, Box::new(grow(seed, 1, depth - 1)), Box::new(grow(seed, 2, depth - 1)))
        }
        1 => grow(seed, 2, depth),
        _ if depth > 0 && choice == 0 => Tree::Group(Box::new(grow(seed, 0, depth - 1))),
        _ => Tree::Leaf((next(seed) % 19) as f64 - 9.0),
    }
}

fn spell(tree: &Tree, tokens: &mut Vec<Token>) {
    match tree {
        Tree::Leaf(value) => tokens.push(num(*value)),
        Tree::Group(inner) => {
            tokens.push(Token::LParen);
            spell(inner, tokens);
            tokens.push(Token::RParen);
        }
        Tree::Node(op, left, right) => {
            spell(left, tokens);
            tokens.push(match op {
                BinOp::Add => Token::Plus,
                BinOp::Sub => Token::Minus,
                BinOp::Mul => Token::Asterisk,
                BinOp::Div => Token::Slash,
            });
            spell(right, tokens);
        }
    }
}

fn value(tree: &Tree) -> f64 {
    match tree {
        Tree::Leaf(value) => *value,
        Tree::Group(inner) => value(inner),
        Tree::Node(op, left, right) => {
            f64::from_bits(ieee(*op, value(left).to_bits(), value(right).to_bits()))
        }
    }
}

#[test]
fn spelled_expressions_are_worth_what_their_trees_are_worth() {
    let memory = Memory::new();
    let mut seed = 2024;
    for _ in 0..2000 {
        let tree = grow(&mut seed, 0, 6);
        let mut tokens = Vec::new();
        spell(&tree, &mut tokens);
        let actual = eval_expression(&tokens, &memory, &ieee);
        assert_eq!(actual, Ok(value(&tree).to_bits()), "{:?}", tokens);
    }
}
