use rlox::compiler::number_lexemes;
use rlox::error::LoxError;
use rlox::value::Value;
use rlox::vm::{Action, Arithmetic, CLOCK, VM};

fn numbers_of(source: &str) -> Vec<u64> {
    number_lexemes(source)
        .iter()
        .map(|l| std::str::from_utf8(l).unwrap().parse::<f64>().unwrap().to_bits())
        .collect()
}

fn show(value: &Value) -> String {
    match value.to_text() {
        Some(text) => String::from_utf8_lossy(&text).into_owned(),
        None => format!("{}", f64::from_bits(value.as_number().unwrap())),
    }
}

fn go(vm: &mut VM, source: &str, out: &mut Vec<String>) -> Result<(), LoxError> {
    let numbers = numbers_of(source);
    vm.interpret(source, &numbers)?;
    loop {
        match vm.step()? {
            Action::Continue => {}
            Action::Halt => return Ok(()),
            Action::Print(value) => out.push(show(&value)),
            Action::Arithmetic(op, a, b) => {
                let (a, b) = (f64::from_bits(a), f64::from_bits(b));
                let result = match op {
                    Arithmetic::Add => a + b,
                    Arithmetic::Subtract => a - b,
                    Arithmetic::Multiply => a * b,
                    Arithmetic::Divide => a / b,
                };
                vm.resume(Value::Number(result.to_bits()))?;
            }
            Action::Native(function, arguments) => {
                let result = if function.0 == CLOCK && arguments.is_empty() {
                    match vm.elapsed() {
                        Some(span) => {
                            let seconds = span.seconds as f64 + span.nanos as f64 / 1e9;
                            Value::Number(seconds.to_bits())
                        }
                        None => Value::Nil,
                    }
                } else {
                    Value::Nil
                };
                vm.resume(result)?;
            }
        }
    }
}

fn run(source: &str) -> Vec<String> {
    let mut vm = VM::new();
    let mut out = Vec::new();
    match go(&mut vm, source, &mut out) {
        Ok(()) => out,
        Err(error) => panic!("{:?}", error),
    }
}

fn runtime_error(source: &str) -> (String, Vec<(u16, String)>, Vec<String>) {
    let mut vm = VM::new();
    let mut out = Vec::new();
    match go(&mut vm, source, &mut out) {
        Err(LoxError::RuntimeError { message, trace }) => (
            String::from_utf8(message).unwrap(),
            trace.iter().map(|t| (t.line, String::from_utf8(t.function.clone()).unwrap())).collect(),
            out,
        ),
        other => panic!("{:?}", other),
    }
}

fn rejected(source: &str) -> Vec<String> {
    let mut vm = VM::new();
    let mut out = Vec::new();
    match go(&mut vm, source, &mut out) {
        Err(LoxError::CompileError(lines)) => {
            lines.iter().map(|l| String::from_utf8(l.clone()).unwrap()).collect()
        }
        other => panic!("{:?}", other),
    }
}

#[test]
fn prints_a_sum() {
    assert_eq!(run("print 1 + 2;"), vec!["3"]);
}

#[test]
fn equal_string_literals_are_equal() {
    assert_eq!(run("var a = \"hi\"; var b = \"hi\"; print a == b;"), vec!["true"]);
}

#[test]
fn a_while_loop_counts() {
    assert_eq!(run("var i = 0; while (i < 3) { print i; i = i + 1; }"), vec!["0", "1", "2"]);
}

#[test]
fn fib_of_ten() {
    assert_eq!(
        run("fun fib(n) { if (n < 2) return n; return fib(n-1) + fib(n-2); } print fib(10);"),
        vec!["55"]
    );
}

#[test]
fn an_inner_variable_shadows_the_outer_one() {
    assert_eq!(run("var x = 1; { var x = 2; print x; } print x;"), vec!["2", "1"]);
}

#[test]
fn strings_are_joined() {
    assert_eq!(run("print \"a\" + \"b\" + \"c\";"), vec!["abc"]);
}

#[test]
fn a_joined_string_equals_the_literal() {
    assert_eq!(run("print \"ab\" + \"c\" == \"abc\";"), vec!["true"]);
    assert_eq!(run("print \"ab\" + \"d\" == \"abc\";"), vec!["false"]);
}

#[test]
fn the_empty_program_prints_nothing() {
    assert_eq!(run(""), Vec::<String>::new());
    assert_eq!(run("  // nothing here\n"), Vec::<String>::new());
}

#[test]
fn assignment_goes_to_the_innermost_binding() {
    let source = "var x = 1; { var x = 2; { x = 3; print x; } print x; } print x;";
    assert_eq!(run(source), vec!["3", "3", "1"]);
    let source = "var x = 1; fun f() { var x = 2; { var x = 3; x = 4; print x; } print x; } f(); print x;";
    assert_eq!(run(source), vec!["4", "2", "1"]);
}

#[test]
fn an_assignment_is_an_expression() {
    assert_eq!(run("var a; print a = 1;"), vec!["1"]);
    assert_eq!(run("var a; var b; a = b = 2; print a; print b;"), vec!["2", "2"]);
    assert_eq!(run("{ var a; print a = 7; print a; }"), vec!["7", "7"]);
}

#[test]
fn and_and_or_give_the_deciding_operand() {
    assert_eq!(run("print nil and 1;"), vec!["nil"]);
    assert_eq!(run("print 1 and 2;"), vec!["2"]);
    assert_eq!(run("print false or 3;"), vec!["3"]);
    assert_eq!(run("print 4 or 5;"), vec!["4"]);
    assert_eq!(run("print 0 and \"zero is true\";"), vec!["zero is true"]);
}

#[test]
fn operators_bind_as_their_precedence_says() {
    assert_eq!(run("print 1 + 2 * 3;"), vec!["7"]);
    assert_eq!(run("print (1 + 2) * 3;"), vec!["9"]);
    assert_eq!(run("print 10 - 4 - 3;"), vec!["3"]);
    assert_eq!(run("print -2 * 3;"), vec!["-6"]);
    assert_eq!(run("print !true == false;"), vec!["true"]);
    assert_eq!(run("print 1 < 2 == 2 > 1;"), vec!["true"]);
    assert_eq!(run("print 7 / 2;"), vec!["3.5"]);
}

#[test]
fn comparisons_compare_numbers() {
    assert_eq!(run("print 1 < 2; print 2 < 1; print 1 <= 1;"), vec!["true", "false", "true"]);
    assert_eq!(run("print 1 > 2; print 2 > 1; print 1 >= 2;"), vec!["false", "true", "false"]);
    assert_eq!(run("print 1 != 2; print 1 == 1; print nil == false;"), vec!["true", "true", "false"]);
    assert_eq!(run("print 0/0 == 0/0; print 0 == -0;"), vec!["false", "true"]);
}

#[test]
fn if_and_else_take_the_right_branch() {
    assert_eq!(run("if (1 < 2) print \"then\"; else print \"else\";"), vec!["then"]);
    assert_eq!(run("if (1 > 2) print \"then\"; else print \"else\";"), vec!["else"]);
    assert_eq!(run("if (nil) print \"then\"; print \"after\";"), vec!["after"]);
}

#[test]
fn a_for_loop_runs_its_clauses_in_order() {
    assert_eq!(run("for (var i = 0; i < 3; i = i + 1) print i;"), vec!["0", "1", "2"]);
    assert_eq!(run("var i = 5; for (; i < 7;) { print i; i = i + 1; }"), vec!["5", "6"]);
    assert_eq!(
        run("for (var i = 0; i < 2; i = i + 1) { for (var j = 0; j < 2; j = j + 1) print i * 10 + j; }"),
        vec!["0", "1", "10", "11"]
    );
}

#[test]
fn functions_take_arguments_and_return_values() {
    assert_eq!(run("fun add(a, b) { return a + b; } print add(1, 2);"), vec!["3"]);
    assert_eq!(run("fun f() { } print f();"), vec!["nil"]);
    assert_eq!(run("fun f() { return; } print f();"), vec!["nil"]);
    assert_eq!(run("fun f() {} print f;"), vec!["<fn f>"]);
    assert_eq!(run("print clock;"), vec!["<native fn>"]);
    assert_eq!(run("{ fun local(n) { return n + 1; } print local(3); }"), vec!["4"]);
}

#[test]
fn a_function_does_not_see_the_locals_around_it() {
    let (message, _, _) = runtime_error("{ var outer = 1; fun f() { print outer; } f(); }");
    assert_eq!(message, "Undefined variable 'outer'");
}

#[test]
fn the_clock_gives_a_number_that_does_not_go_back() {
    assert_eq!(run("var a = clock(); var b = clock(); print a <= b; print a >= 0;"), vec!["true", "true"]);
}

#[test]
fn globals_stay_from_one_program_to_the_next() {
    let mut vm = VM::new();
    let mut out = Vec::new();
    go(&mut vm, "var a = 1; fun twice(x) { return x * 2; }", &mut out).unwrap();
    go(&mut vm, "print twice(a + 1);", &mut out).unwrap();
    assert!(go(&mut vm, "print b;", &mut out).is_err());
    go(&mut vm, "print a;", &mut out).unwrap();
    assert_eq!(out, vec!["4", "1"]);
}

#[test]
fn an_undefined_variable_is_a_runtime_error() {
    let (message, trace, out) = runtime_error("print 1;\nprint a;");
    assert_eq!(message, "Undefined variable 'a'");
    assert_eq!(trace, vec![(2, "script".to_string())]);
    assert_eq!(out, vec!["1"]);
    assert_eq!(runtime_error("a = 1;").0, "Undefined variable 'a'");
}

#[test]
fn assigning_to_an_undefined_global_does_not_define_it() {
    let mut vm = VM::new();
    let mut out = Vec::new();
    assert!(go(&mut vm, "a = 1;", &mut out).is_err());
    assert!(go(&mut vm, "print a;", &mut out).is_err());
}

#[test]
fn operands_must_have_the_right_kind() {
    assert_eq!(runtime_error("print 1 - \"a\";").0, "Operands must be numbers");
    assert_eq!(runtime_error("print nil * 2;").0, "Operands must be numbers");
    assert_eq!(runtime_error("print true / 2;").0, "Operands must be numbers");
    assert_eq!(runtime_error("print 1 < \"a\";").0, "Operands must be numbers");
    assert_eq!(runtime_error("print \"a\" > 1;").0, "Operands must be numbers");
    assert_eq!(
        runtime_error("print 1 + \"a\";").0,
        "Operands must be two numbers or two strings"
    );
    assert_eq!(runtime_error("print -\"a\";").0, "Operand must be a number");
}

#[test]
fn calls_are_checked() {
    assert_eq!(runtime_error("var a = 1; a();").0, "Can only call functions");
    assert_eq!(runtime_error("\"text\"();").0, "Can only call functions");
    assert_eq!(
        runtime_error("fun f(a, b) {} f(1);").0,
        "Expected 2 arguments but got 1"
    );
    assert_eq!(runtime_error("fun f() {} f(1, 2, 3);").0, "Expected 0 arguments but got 3");
}

#[test]
fn the_trace_lists_the_calls_innermost_first() {
    let source = "fun inner() {\n  print missing;\n}\nfun outer() {\n  inner();\n}\nouter();";
    let (message, trace, _) = runtime_error(source);
    assert_eq!(message, "Undefined variable 'missing'");
    assert_eq!(
        trace,
        vec![(2, "inner".to_string()), (5, "outer".to_string()), (7, "script".to_string())]
    );
}

#[test]
fn sixty_four_calls_deep_works_and_one_more_overflows() {
    let program = |depth: usize| {
        format!("fun down(n) {{ if (n > 1) down(n - 1); }} down({}); print \"done\";", depth)
    };
    // The program itself is the first call.
    assert_eq!(run(&program(63)), vec!["done"]);
    assert_eq!(runtime_error(&program(64)).0, "Stack overflow");
}

#[test]
fn a_function_takes_up_to_255_parameters() {
    let program = |count: usize| {
        let names: Vec<String> = (0..count).map(|i| format!("p{}", i)).collect();
        format!("fun f({}) {{ return p0; }}", names.join(", "))
    };
    assert_eq!(run(&program(255)), Vec::<String>::new());
    assert_eq!(
        rejected(&program(256)),
        vec!["[line 1] Error at ,: Can't have more than 255 parameters."]
    );
}

#[test]
fn a_call_takes_up_to_255_arguments() {
    let program = |count: usize| {
        let arguments: Vec<&str> = (0..count).map(|_| "nil").collect();
        format!("fun f() {{}} f({});", arguments.join(", "))
    };
    assert_eq!(runtime_error(&program(255)).0, "Expected 0 arguments but got 255");
    assert_eq!(
        rejected(&program(256)),
        vec!["[line 1] Error at nil: Can't have more than 255 arguments."]
    );
}

#[test]
fn a_chunk_holds_up_to_256_constants() {
    let program = |count: usize| {
        let mut source = String::new();
        for i in 0..count {
            source.push_str(&format!("{};\n", i));
        }
        source.push_str("print \"end\";");
        source
    };
    // The string is one more constant.
    assert_eq!(run(&program(255)), vec!["end"]);
    assert_eq!(
        rejected(&program(256)),
        vec!["[line 257] Error at \"end\": Too many constants in one chunk."]
    );
}

#[test]
fn a_forward_jump_spans_up_to_65535_instructions() {
    // The jump over the body passes the pop of the condition, the body,
    // and the jump over the else part.
    let program = |body: usize| {
        let mut source = String::from("if (false) {");
        // Three instructions.
        source.push_str("!nil;");
        for _ in 0..(body - 3) / 2 {
            // Two instructions each.
            source.push_str("print nil;");
        }
        source.push_str("} print \"after\";");
        source
    };
    assert_eq!(run(&program(65533)), vec!["after"]);
    let errors = rejected(&program(65535));
    assert_eq!(errors, vec!["[line 1] Error at }: Too much code to jump over."]);
}

#[test]
fn a_loop_spans_up_to_65535_instructions() {
    let program = |body: usize| {
        let mut source = String::from("var go = true; while (go) { go = false;");
        for _ in 0..body {
            source.push_str("nil;");
        }
        source.push_str("} print \"after\";");
        source
    };
    assert_eq!(run(&program(100)), vec!["after"]);
    let errors = rejected(&program(32768));
    assert_eq!(errors[0], "[line 1] Error at }: Loop body too large.");
}

#[test]
fn more_than_256_locals_are_an_error() {
    let program = |count: usize| {
        let mut source = String::from("{");
        for i in 0..count {
            source.push_str(&format!("var v{};", i));
        }
        source.push_str("}");
        source
    };
    assert_eq!(run(&program(255)), Vec::<String>::new());
    assert_eq!(
        rejected(&program(256)),
        vec!["[line 1] Error at v255: Too many local variables in scope."]
    );
}

#[test]
fn compile_errors_are_reported_with_line_and_place() {
    assert_eq!(
        rejected("var a = 1;\n{ var a = 2; var a = 3; }"),
        vec!["[line 2] Error at a: Already a variable with this name in this scope."]
    );
    assert_eq!(
        rejected("{ var a = a; }"),
        vec!["[line 1] Error at a: Can't read local variable in its own initializer."]
    );
    assert_eq!(
        rejected("return 1;"),
        vec!["[line 1] Error at return: Can't return from top-level code."]
    );
    assert_eq!(
        rejected("var a; var b; a + b = 1;"),
        vec!["[line 1] Error at =: Invalid assignment target."]
    );
    assert_eq!(
        rejected("print @;"),
        vec!["[line 1] Error at Unexpected character.: Unknown token."]
    );
    assert_eq!(
        rejected("print 1;\nprint (2;\nprint 3"),
        vec![
            "[line 2] Error at ;: Expect ')' after expression.",
            "[line 3] Error at end of file: Expected semicolon after value."
        ]
    );
}

#[test]
fn after_an_error_the_parser_goes_on_at_the_next_statement() {
    // One diagnostic for each faulty statement, none for what follows
    // from the first fault.
    assert_eq!(
        rejected("var = 1 2 3; print ; var x = 1;"),
        vec![
            "[line 1] Error at =: Expected variable name.",
            "[line 1] Error at ;: Expected expression."
        ]
    );
}

#[test]
fn a_machine_that_awaits_a_result_cannot_step() {
    let mut vm = VM::new();
    let source = "print 1 + 2;";
    vm.interpret(source, &numbers_of(source)).unwrap();
    loop {
        match vm.step().unwrap() {
            Action::Arithmetic(Arithmetic::Add, a, b) => {
                assert_eq!(f64::from_bits(a), 1.0);
                assert_eq!(f64::from_bits(b), 2.0);
                break;
            }
            Action::Continue => {}
            other => panic!("{:?}", other),
        }
    }
    match vm.step() {
        Err(LoxError::RuntimeError { message, .. }) => {
            assert_eq!(message, b"A result is awaited".to_vec())
        }
        other => panic!("{:?}", other),
    }
    // The error has reset the machine.
    assert!(matches!(vm.step(), Ok(Action::Halt)));
    match vm.resume(Value::Nil) {
        Err(LoxError::RuntimeError { message, .. }) => {
            assert_eq!(message, b"No result is awaited".to_vec())
        }
        other => panic!("{:?}", other),
    }
}

#[test]
fn a_native_function_gets_its_arguments() {
    let mut vm = VM::new();
    vm.define_native("probe", rlox::objects::NativeFunction(7));
    let source = "print probe(1, \"two\", nil);";
    vm.interpret(source, &numbers_of(source)).unwrap();
    let mut printed = Vec::new();
    loop {
        match vm.step().unwrap() {
            Action::Continue => {}
            Action::Halt => break,
            Action::Print(value) => printed.push(show(&value)),
            Action::Native(function, arguments) => {
                assert_eq!(function.0, 7);
                let shown: Vec<String> = arguments.iter().map(show).collect();
                assert_eq!(shown, vec!["1", "two", "nil"]);
                vm.resume(Value::Bool(true)).unwrap();
            }
            other => panic!("{:?}", other),
        }
    }
    assert_eq!(printed, vec!["true"]);
}

#[test]
fn the_same_source_gives_the_same_output_again() {
    let source = "var s = \"x\"; for (var i = 0; i < 3; i = i + 1) { s = s + \"y\"; print s; }";
    let first = run(source);
    let second = run(source);
    assert_eq!(first, vec!["xy", "xyy", "xyyy"]);
    assert_eq!(first, second);
    let numbers = numbers_of(source);
    let a = rlox::compiler::compile(source, &numbers).unwrap();
    let b = rlox::compiler::compile(source, &numbers).unwrap();
    assert!(Value::Function(a) == Value::Function(b));
}

#[test]
fn a_number_literal_without_a_value_is_a_rejected() {
    let mut vm = VM::new();
    match vm.interpret("print 1 + 2;", &[1.0f64.to_bits()]) {
        Err(LoxError::CompileError(lines)) => assert_eq!(
            lines,
            vec![b"[line 1] Error at 2: Number literal without a value.".to_vec()]
        ),
        other => panic!("{:?}", other),
    }
}

#[test]
fn the_stopwatch_shows_time_below_a_second_in_nanoseconds() {
    let vm = VM::new();
    let mut spin: u64 = 0;
    for i in 0..2_000_000u64 {
        spin = spin.wrapping_mul(31).wrapping_add(i);
    }
    assert_ne!(spin, 1);
    let first = vm.elapsed().unwrap();
    let second = vm.elapsed().unwrap();
    assert!(first.nanos < 1_000_000_000);
    assert!(second.nanos < 1_000_000_000);
    assert!((second.seconds, second.nanos) >= (first.seconds, first.nanos));
    assert!(first.seconds < 3600);
}

#[test]
fn a_joined_string_is_the_same_string_as_the_literal() {
    let mut vm = VM::new();
    let source = "print \"ab\" + \"c\"; print \"abc\"; print \"a\" + \"bc\";";
    vm.interpret(source, &[]).unwrap();
    let mut printed = Vec::new();
    loop {
        match vm.step().unwrap() {
            Action::Continue => {}
            Action::Halt => break,
            Action::Print(Value::String(s)) => printed.push(s),
            other => panic!("{:?}", other),
        }
    }
    assert_eq!(printed.len(), 3);
    assert_eq!(printed[0].value, b"abc".to_vec());
    assert!(std::rc::Rc::ptr_eq(&printed[0], &printed[1]));
    assert!(std::rc::Rc::ptr_eq(&printed[0], &printed[2]));
}

#[test]
fn blocks_leave_the_stack_as_they_found_it() {
    // Locals of blocks that were left would shift the slots of the
    // locals that are declared after them.
    let source = "{ var a = 1; { var b = 2; { var c = 3; } var d = 4; print d; } var e = 5; print a + e; }";
    assert_eq!(run(source), vec!["4", "6"]);
    let source = "fun f(n) { { var x = n; { var y = x; } } var z = n + 1; return z; } print f(1); print f(2);";
    assert_eq!(run(source), vec!["2", "3"]);
}
