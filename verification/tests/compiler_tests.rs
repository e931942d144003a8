use rlox::compiler::{compile, compile_with, number_lexemes};
use rlox::table::Table;
use rlox::error::LoxError;
use rlox::objects::Function;
use rlox::op::OpCode;
use rlox::value::Value;
use std::rc::Rc;

fn numbers_of(source: &str) -> Vec<u64> {
    number_lexemes(source)
        .iter()
        .map(|l| std::str::from_utf8(l).unwrap().parse::<f64>().unwrap().to_bits())
        .collect()
}

fn compiled(source: &str) -> Rc<Function> {
    match compile(source, &numbers_of(source)) {
        Ok(function) => function,
        Err(error) => panic!("{:?}", error),
    }
}

fn diagnostics(source: &str) -> Vec<String> {
    match compile(source, &numbers_of(source)) {
        Ok(_) => panic!("compiled"),
        Err(LoxError::CompileError(lines)) => {
            lines.iter().map(|l| String::from_utf8(l.clone()).unwrap()).collect()
        }
        Err(error) => panic!("{:?}", error),
    }
}

#[test]
fn an_addition_compiles_to_two_constants_and_add() {
    let function = compiled("print 1 + 2;");
    assert_eq!(
        function.block.code,
        vec![
            OpCode::Constant(0),
            OpCode::Constant(1),
            OpCode::Add,
            OpCode::Print,
            OpCode::Nil,
            OpCode::Return
        ]
    );
    assert_eq!(
        function.block.constants,
        vec![Value::Number(1.0f64.to_bits()), Value::Number(2.0f64.to_bits())]
    );
    assert_eq!(function.block.lines, vec![1, 1, 1, 1, 1, 1]);
    assert_eq!(function.name.value, b"script".to_vec());
    assert_eq!(function.arity, 0);
}

#[test]
fn the_empty_program_returns_nil() {
    let function = compiled("");
    assert_eq!(function.block.code, vec![OpCode::Nil, OpCode::Return]);
    assert!(function.block.constants.is_empty());
}

#[test]
fn a_missing_expression_is_reported() {
    assert_eq!(diagnostics("print ;"), vec!["[line 1] Error at ;: Expected expression."]);
    assert_eq!(
        diagnostics("print 1"),
        vec!["[line 1] Error at end of file: Expected semicolon after value."]
    );
}

fn number(n: f64) -> Value {
    Value::Number(n.to_bits())
}

#[test]
fn an_if_jumps_over_the_branch_that_is_not_taken() {
    let function = compiled("if (true) print 1; else print 2;");
    assert_eq!(
        function.block.code,
        vec![
            OpCode::True,
            OpCode::JumpIfFalse(4),
            OpCode::Pop,
            OpCode::Constant(0),
            OpCode::Print,
            OpCode::Jump(3),
            OpCode::Pop,
            OpCode::Constant(1),
            OpCode::Print,
            OpCode::Nil,
            OpCode::Return,
        ]
    );
    assert_eq!(function.block.constants, vec![number(1.0), number(2.0)]);
}

#[test]
fn a_while_loops_back_to_its_condition() {
    let function = compiled("while (false) print 1;");
    assert_eq!(
        function.block.code,
        vec![
            OpCode::False,
            OpCode::JumpIfFalse(4),
            OpCode::Pop,
            OpCode::Constant(0),
            OpCode::Print,
            OpCode::Loop(5),
            OpCode::Pop,
            OpCode::Nil,
            OpCode::Return,
        ]
    );
}

#[test]
fn a_for_runs_the_increment_after_the_body() {
    let function = compiled("for (var i = 0; i < 1; i = i + 1) print i;");
    assert_eq!(
        function.block.code,
        vec![
            OpCode::Constant(0),
            OpCode::GetLocal(1),
            OpCode::Constant(1),
            OpCode::Less,
            OpCode::JumpIfFalse(11),
            OpCode::Pop,
            OpCode::Jump(6),
            OpCode::GetLocal(1),
            OpCode::Constant(2),
            OpCode::Add,
            OpCode::SetLocal(1),
            OpCode::Pop,
            OpCode::Loop(11),
            OpCode::GetLocal(1),
            OpCode::Print,
            OpCode::Loop(8),
            OpCode::Pop,
            OpCode::Pop,
            OpCode::Nil,
            OpCode::Return,
        ]
    );
    assert_eq!(function.block.constants, vec![number(0.0), number(1.0), number(1.0)]);
}

#[test]
fn and_and_or_jump_over_the_right_operand() {
    assert_eq!(
        compiled("print true and false;").block.code,
        vec![
            OpCode::True,
            OpCode::JumpIfFalse(2),
            OpCode::Pop,
            OpCode::False,
            OpCode::Print,
            OpCode::Nil,
            OpCode::Return,
        ]
    );
    assert_eq!(
        compiled("print true or false;").block.code,
        vec![
            OpCode::True,
            OpCode::JumpIfFalse(1),
            OpCode::Jump(2),
            OpCode::Pop,
            OpCode::False,
            OpCode::Print,
            OpCode::Nil,
            OpCode::Return,
        ]
    );
}

#[test]
fn comparisons_are_rewritten_with_not() {
    let code = |source: &str| {
        let function = compiled(source);
        function.block.code[2..function.block.code.len() - 3].to_vec()
    };
    assert_eq!(code("1 != 2;"), vec![OpCode::Equal, OpCode::Not]);
    assert_eq!(code("1 == 2;"), vec![OpCode::Equal]);
    assert_eq!(code("1 > 2;"), vec![OpCode::Greater]);
    assert_eq!(code("1 >= 2;"), vec![OpCode::Less, OpCode::Not]);
    assert_eq!(code("1 < 2;"), vec![OpCode::Less]);
    assert_eq!(code("1 <= 2;"), vec![OpCode::Greater, OpCode::Not]);
    assert_eq!(code("1 + 2;"), vec![OpCode::Add]);
    assert_eq!(code("1 - 2;"), vec![OpCode::Subtract]);
    assert_eq!(code("1 * 2;"), vec![OpCode::Multiply]);
    assert_eq!(code("1 / 2;"), vec![OpCode::Divide]);
}

#[test]
fn a_function_is_compiled_into_a_chunk_of_its_own() {
    let script = compiled("fun f(a) { return a; }\nf(1);");
    assert_eq!(
        script.block.code,
        vec![
            OpCode::Constant(1),
            OpCode::DefGlobal(0),
            OpCode::GetGlobal(2),
            OpCode::Constant(3),
            OpCode::Call(1),
            OpCode::Pop,
            OpCode::Nil,
            OpCode::Return,
        ]
    );
    assert_eq!(script.block.lines, vec![1, 1, 2, 2, 2, 2, 2, 2]);
    assert_eq!(script.block.constants.len(), 4);
    let function = match &script.block.constants[1] {
        Value::Function(function) => function.clone(),
        other => panic!("{:?}", other),
    };
    assert_eq!(function.name.value, b"f".to_vec());
    assert_eq!(function.arity, 1);
    assert_eq!(
        function.block.code,
        vec![OpCode::GetLocal(1), OpCode::Return, OpCode::Nil, OpCode::Return]
    );
    assert!(function.block.constants.is_empty());
}

#[test]
fn a_block_pops_its_locals() {
    let function = compiled("{ var a = 1; var b = 2; print a + b; }");
    assert_eq!(
        function.block.code,
        vec![
            OpCode::Constant(0),
            OpCode::Constant(1),
            OpCode::GetLocal(1),
            OpCode::GetLocal(2),
            OpCode::Add,
            OpCode::Print,
            OpCode::Pop,
            OpCode::Pop,
            OpCode::Nil,
            OpCode::Return,
        ]
    );
}

#[test]
fn the_innermost_local_is_the_one_that_is_read_and_written() {
    let function = compiled("{ var a = 1; { var a = 2; a = 3; print a; } a = 4; }");
    assert_eq!(
        function.block.code,
        vec![
            OpCode::Constant(0),
            OpCode::Constant(1),
            OpCode::Constant(2),
            OpCode::SetLocal(2),
            OpCode::Pop,
            OpCode::GetLocal(2),
            OpCode::Print,
            OpCode::Pop,
            OpCode::Constant(3),
            OpCode::SetLocal(1),
            OpCode::Pop,
            OpCode::Pop,
            OpCode::Nil,
            OpCode::Return,
        ]
    );
}

#[test]
fn equal_strings_of_a_program_are_held_once() {
    let source = "print \"hi\"; print \"hi\"; var hi = \"hi\";";
    let mut strings = Table::new();
    let function = compile_with(source, &[], &mut strings).unwrap();
    let handles: Vec<Rc<rlox::objects::LoxString>> = function
        .block
        .constants
        .iter()
        .map(|c| match c {
            Value::String(s) => s.clone(),
            other => panic!("{:?}", other),
        })
        .collect();
    assert_eq!(handles.len(), 4);
    for handle in handles.iter() {
        assert!(Rc::ptr_eq(handle, &handles[0]));
    }
    let hash = handles[0].hash;
    assert!(Rc::ptr_eq(&strings.find_string(b"hi", hash).unwrap(), &handles[0]));
    // A second program takes the string from the same pool.
    let again = compile_with("print \"hi\";", &[], &mut strings).unwrap();
    match &again.block.constants[0] {
        Value::String(s) => assert!(Rc::ptr_eq(s, &handles[0])),
        other => panic!("{:?}", other),
    }
}

#[test]
fn compiling_again_gives_the_same_function() {
    let source = "fun twice(x) { return x * 2; } var s = \"a\"; while (s != \"aaa\") s = s + \"a\"; print twice(21);";
    let first = compiled(source);
    let second = compiled(source);
    assert!(Value::Function(first.clone()) == Value::Function(second.clone()));
    assert_eq!(first.block.code, second.block.code);
    assert_eq!(first.block.lines, second.block.lines);
}
