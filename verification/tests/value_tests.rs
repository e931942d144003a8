use rlox::bytes::{append_bytes, bytes_equal, decimal};
use rlox::clock::{span_between, span_since, Span, Stopwatch};
use rlox::compiler::{get_rule, number_lexemes, Compiler, FunctionType, Local, ParseFn, Precedence};
use rlox::number::{negate, number_greater, number_less, numbers_equal};
use rlox::objects::{Function, LoxString, NativeFunction};
use rlox::block::Block;
use rlox::op::OpCode;
use rlox::token::{Token, TokenType};
use rlox::value::Value;
use std::rc::Rc;

fn samples() -> Vec<f64> {
    vec![
        0.0,
        -0.0,
        1.0,
        -1.0,
        0.5,
        -0.5,
        1e300,
        -1e300,
        f64::MIN_POSITIVE,
        -f64::MIN_POSITIVE,
        5e-324,
        -5e-324,
        f64::MAX,
        f64::MIN,
        f64::INFINITY,
        f64::NEG_INFINITY,
        f64::NAN,
        -f64::NAN,
        f64::from_bits(0x7ff0_0000_0000_0001),
        3.0,
        2.9999999999999996,
    ]
}

#[test]
fn numbers_compare_as_ieee_754_doubles() {
    for a in samples() {
        for b in samples() {
            let (x, y) = (a.to_bits(), b.to_bits());
            assert_eq!(numbers_equal(x, y), a == b, "{} == {}", a, b);
            assert_eq!(number_less(x, y), a < b, "{} < {}", a, b);
            assert_eq!(number_greater(x, y), a > b, "{} > {}", a, b);
        }
    }
}

#[test]
fn negation_flips_the_sign() {
    for a in samples() {
        assert_eq!(negate(a.to_bits()), (-a).to_bits());
    }
    assert_eq!(negate(0), 0x8000_0000_0000_0000);
}

#[test]
fn only_nil_and_false_are_falsey() {
    assert!(Value::Nil.is_falsey());
    assert!(Value::Bool(false).is_falsey());
    assert!(Value::Bool(true).is_truthy());
    assert!(Value::Number(0).is_truthy());
    assert!(Value::Number(f64::NAN.to_bits()).is_truthy());
    assert!(Value::String(LoxString::new("")).is_truthy());
    assert!(Value::NativeFunction(NativeFunction(0)).is_truthy());
    assert!(Value::Function(Rc::new(*Function::new(LoxString::new("f")))).is_truthy());
    assert!(!Value::Nil.is_truthy());
}

#[test]
fn values_of_different_kinds_are_never_equal() {
    let values = vec![
        Value::Nil,
        Value::Bool(false),
        Value::Number(0),
        Value::String(LoxString::new("")),
        Value::Function(Rc::new(*Function::new(LoxString::new("")))),
    ];
    for (i, a) in values.iter().enumerate() {
        for (j, b) in values.iter().enumerate() {
            assert_eq!(a == b, i == j);
        }
    }
    assert!(Value::NativeFunction(NativeFunction(1)) != Value::NativeFunction(NativeFunction(1)));
    assert!(Value::Number(f64::NAN.to_bits()) != Value::Number(f64::NAN.to_bits()));
    assert!(Value::Number(0.0f64.to_bits()) == Value::Number((-0.0f64).to_bits()));
    assert!(Value::String(LoxString::new("ab")) == Value::String(LoxString::from_bytes(b"ab")));
    assert!(Value::String(LoxString::new("ab")) != Value::String(LoxString::new("ac")));
}

#[test]
fn functions_are_equal_when_all_their_parts_are() {
    let make = |name: &str, constant: f64, op: OpCode, line: u16, arity: usize| {
        let mut function = *Function::new(LoxString::new(name));
        function.block.write(op, line);
        function.block.add_constant(Value::Number(constant.to_bits()));
        function.arity = arity;
        Value::Function(Rc::new(function))
    };
    let base = make("f", 1.0, OpCode::Nil, 1, 0);
    assert!(base == make("f", 1.0, OpCode::Nil, 1, 0));
    assert!(base != make("g", 1.0, OpCode::Nil, 1, 0));
    assert!(base != make("f", 2.0, OpCode::Nil, 1, 0));
    assert!(base != make("f", 1.0, OpCode::Pop, 1, 0));
    assert!(base != make("f", 1.0, OpCode::Nil, 2, 0));
    assert!(base != make("f", 1.0, OpCode::Nil, 1, 1));
    assert!(base.clone() == base);
}

#[test]
fn as_number_gives_the_bits_of_a_number_only() {
    assert_eq!(Value::Number(7).as_number(), Some(7));
    assert_eq!(Value::Nil.as_number(), None);
    assert_eq!(Value::Bool(true).as_number(), None);
}

#[test]
fn values_have_their_text() {
    assert_eq!(Value::Nil.to_text(), Some(b"nil".to_vec()));
    assert_eq!(Value::Bool(true).to_text(), Some(b"true".to_vec()));
    assert_eq!(Value::Bool(false).to_text(), Some(b"false".to_vec()));
    assert_eq!(Value::String(LoxString::new("hi")).to_text(), Some(b"hi".to_vec()));
    assert_eq!(Value::NativeFunction(NativeFunction(0)).to_text(), Some(b"<native fn>".to_vec()));
    assert_eq!(
        Value::Function(Rc::new(*Function::new(LoxString::new("area")))).to_text(),
        Some(b"<fn area>".to_vec())
    );
    assert_eq!(Value::Number(1.5f64.to_bits()).to_text(), None);
}

#[test]
fn a_chunk_keeps_code_lines_and_constants() {
    let mut block = Block::new();
    assert_eq!(block.write(OpCode::Nil, 3), 0);
    assert_eq!(block.write(OpCode::Return, 4), 1);
    assert_eq!(block.code, vec![OpCode::Nil, OpCode::Return]);
    assert_eq!(block.lines, vec![3, 4]);
    assert_eq!(block.add_constant(Value::Bool(true)), Some(0));
    assert_eq!(block.add_constant(Value::String(LoxString::new("s"))), Some(1));
    assert!(*block.read_constant(0) == Value::Bool(true));
    assert_eq!(block.read_string(1).value, b"s".to_vec());
    assert!(block.string_at(0).is_none());
    assert!(block.string_at(2).is_none());
    assert_eq!(block.string_at(1).unwrap().value, b"s".to_vec());
}

#[test]
fn the_pool_of_a_chunk_is_full_at_256_constants() {
    let mut block = Block::new();
    for i in 0..256usize {
        assert_eq!(block.add_constant(Value::Nil), Some(i as u8));
    }
    assert_eq!(block.add_constant(Value::Nil), None);
    assert_eq!(block.constants.len(), 256);
}

#[test]
fn decimal_renders_numbers() {
    assert_eq!(decimal(0), b"0".to_vec());
    assert_eq!(decimal(7), b"7".to_vec());
    assert_eq!(decimal(10), b"10".to_vec());
    assert_eq!(decimal(65535), b"65535".to_vec());
    assert_eq!(decimal(1234567890), b"1234567890".to_vec());
    assert_eq!(decimal(usize::MAX), usize::MAX.to_string().into_bytes());
}

#[test]
fn bytes_are_compared_and_appended() {
    assert!(bytes_equal(b"", b""));
    assert!(bytes_equal(b"abc", b"abc"));
    assert!(!bytes_equal(b"abc", b"abd"));
    assert!(!bytes_equal(b"abc", b"ab"));
    let mut text = b"ab".to_vec();
    append_bytes(&mut text, b"cd");
    append_bytes(&mut text, b"");
    assert_eq!(text, b"abcd".to_vec());
}

#[test]
fn precedences_are_ordered() {
    let order = [
        Precedence::Lowest,
        Precedence::Assignment,
        Precedence::Or,
        Precedence::And,
        Precedence::Equality,
        Precedence::Comparison,
        Precedence::Term,
        Precedence::Factor,
        Precedence::Unary,
        Precedence::Call,
        Precedence::Primary,
    ];
    for (i, p) in order.iter().enumerate() {
        assert_eq!(p.level() as usize, i);
        let next = if i + 1 < order.len() { order[i + 1] } else { Precedence::Primary };
        assert_eq!(p.next(), next);
    }
}

#[test]
fn the_rules_say_how_tokens_are_compiled() {
    let rule = get_rule(TokenType::Minus);
    assert_eq!(rule.prefix, Some(ParseFn::Unary));
    assert_eq!(rule.infix, Some(ParseFn::Binary));
    assert_eq!(rule.precedence, Precedence::Term);
    let rule = get_rule(TokenType::LeftParen);
    assert_eq!(rule.prefix, Some(ParseFn::Grouping));
    assert_eq!(rule.infix, Some(ParseFn::Call));
    assert_eq!(rule.precedence, Precedence::Call);
    let rule = get_rule(TokenType::Star);
    assert_eq!((rule.prefix, rule.infix, rule.precedence), (None, Some(ParseFn::Binary), Precedence::Factor));
    let rule = get_rule(TokenType::And);
    assert_eq!((rule.prefix, rule.infix, rule.precedence), (None, Some(ParseFn::And), Precedence::And));
    let rule = get_rule(TokenType::Or);
    assert_eq!((rule.prefix, rule.infix, rule.precedence), (None, Some(ParseFn::Or), Precedence::Or));
    let rule = get_rule(TokenType::Identifier);
    assert_eq!((rule.prefix, rule.infix, rule.precedence), (Some(ParseFn::Variable), None, Precedence::Lowest));
    for kind in [TokenType::Semicolon, TokenType::Eof, TokenType::Equal, TokenType::Else, TokenType::Error] {
        let rule = get_rule(kind);
        assert_eq!((rule.prefix, rule.infix, rule.precedence), (None, None, Precedence::Lowest));
    }
}

fn named(lexeme: &'static [u8]) -> Token<'static> {
    Token { token_type: TokenType::Identifier, lexeme, line: 1 }
}

#[test]
fn the_innermost_local_of_a_name_is_resolved() {
    let mut compiler = Compiler::new(LoxString::new("f"), FunctionType::Function);
    compiler.scope_depth = 2;
    compiler.locals.push(Local::new(named(b"a"), 1));
    compiler.locals.push(Local::new(named(b"b"), 1));
    compiler.locals.push(Local::new(named(b"a"), 2));
    compiler.locals.push(Local::new(named(b"c"), -1));
    let mut errors = Vec::new();
    assert_eq!(compiler.resolve_local(&named(b"a"), &mut errors), Some(3));
    assert_eq!(compiler.resolve_local(&named(b"b"), &mut errors), Some(2));
    assert_eq!(compiler.resolve_local(&named(b"d"), &mut errors), None);
    assert!(errors.is_empty());
    assert_eq!(compiler.resolve_local(&named(b"c"), &mut errors), Some(4));
    assert_eq!(errors, vec!["Can't read local variable in its own initializer."]);
    // Only the open scope counts for a second declaration.
    assert!(compiler.is_local(named(b"a")));
    assert!(compiler.is_local(named(b"c")));
    assert!(!compiler.is_local(named(b"b")));
    assert!(!compiler.is_local(named(b"d")));
}

#[test]
fn number_lexemes_lists_the_literals_in_order() {
    let lexemes = number_lexemes("var a = 1.5; // 7\nprint a + 20 + \"3\" + x4;");
    let expected: Vec<&[u8]> = vec![b"1.5", b"20"];
    assert_eq!(lexemes, expected);
    assert!(number_lexemes("").is_empty());
}

#[test]
fn spans_are_subtracted_with_borrow() {
    let span = |seconds, nanos| Span { seconds, nanos };
    assert_eq!(span_between(span(1, 500), span(3, 700)), span(2, 200));
    assert_eq!(span_between(span(1, 700), span(3, 500)), span(1, 999_999_800));
    assert_eq!(span_between(span(3, 0), span(3, 0)), span(0, 0));
    assert_eq!(span_between(span(3, 1), span(3, 0)), span(0, 0));
    assert_eq!(span_between(span(4, 0), span(3, 999_999_999)), span(0, 0));
}

#[test]
fn a_stopwatch_shows_the_span_between_two_readings() {
    let span = |seconds, nanos| Span { seconds, nanos };
    assert_eq!(span_since(Some(span(1, 500)), Some(span(3, 700))), Some(span(2, 200)));
    assert_eq!(
        span_since(Some(span(1, 700)), Some(span(3, 500))),
        Some(span(1, 999_999_800))
    );
    assert_eq!(span_since(Some(span(5, 0)), Some(span(3, 0))), Some(span(0, 0)));
    assert_eq!(span_since(None, Some(span(3, 0))), None);
    assert_eq!(span_since(Some(span(3, 0)), None), None);
    assert_eq!(span_since(None, None), None);
}

#[test]
fn a_stopwatch_does_not_run_backwards() {
    let watch = Stopwatch::start();
    let first = watch.elapsed().unwrap();
    let mut spin: u64 = 0;
    for i in 0..3_000_000u64 {
        spin = spin.wrapping_mul(31).wrapping_add(i);
    }
    assert_ne!(spin, 1);
    let second = watch.elapsed().unwrap();
    assert!(first.nanos < 1_000_000_000 && second.nanos < 1_000_000_000);
    assert!((second.seconds, second.nanos) >= (first.seconds, first.nanos));
    // The span is counted from the start of the stopwatch, not from the
    // start of the process.
    assert!(first.seconds < 60);
}
