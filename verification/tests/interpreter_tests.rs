use lax::interpreter::{Action, Interpreter, InterpreterError};
use lax::machine::Operator;
use lax::parser::Parser;
use lax::render::Piece;
use lax::scanner::{attach, numerals, Scanner};
use lax::lox_std;
use lax::{Callable, Environment, Expr, LoxError, LoxFun, LoxType, Native, Number, Statement, Token, TokenType};
use std::rc::Rc;

fn number(x: f64) -> LoxType {
    LoxType::Number(Number::from_bits(x.to_bits()))
}

fn as_f64(v: &LoxType) -> f64 {
    match v {
        LoxType::Number(n) => f64::from_bits(n.to_bits()),
        other => panic!("not a number: {:?}", other),
    }
}

fn as_text(v: &LoxType) -> String {
    match v {
        LoxType::String(s) => s.clone(),
        other => panic!("not a text: {:?}", other),
    }
}

fn tokens_of(source: &str) -> Vec<Token> {
    let mut scanner = Scanner::new(source.to_string());
    scanner.scan().unwrap();
    decoded(scanner.into_tokens())
}

fn decoded(tokens: Vec<Token>) -> Vec<Token> {
    let numbers: Vec<Number> = numerals(&tokens)
        .iter()
        .map(|n| Number::from_bits(n.parse::<f64>().unwrap().to_bits()))
        .collect();
    attach(&tokens, &numbers)
}

fn native(name: &str, arity: usize) -> LoxType {
    LoxType::Callable(Callable::Native(Native { name: name.to_string(), arity }))
}

struct Run {
    result: Result<LoxType, InterpreterError>,
    printed: Vec<LoxType>,
}

fn drive(interpreter: &mut Interpreter, first: Action, files: &[(&str, &str)]) -> Run {
    let mut printed = Vec::new();
    let mut action = first;
    loop {
        action = match action {
            Action::Continue => interpreter.step(),
            Action::Arithmetic(op, a, b) => {
                let x = f64::from_bits(a.to_bits());
                let y = f64::from_bits(b.to_bits());
                let z = match op {
                    Operator::Add => x + y,
                    Operator::Subtract => x - y,
                    Operator::Multiply => x * y,
                    Operator::Divide => x / y,
                };
                interpreter.resume(Ok(number(z)))
            }
            Action::Call(name, mut args) => {
                if name == "print" {
                    printed.push(args.remove(0));
                    interpreter.resume(Ok(LoxType::Nil))
                } else if name == "clock" {
                    interpreter.resume(Ok(number(12345.0)))
                } else if name == "fail" {
                    interpreter.resume(Err(LoxError::new("native failed".to_string(), 7)))
                } else {
                    panic!("unknown native {}", name)
                }
            }
            Action::Import(path, line) => match files.iter().find(|(p, _)| *p == path) {
                Some((_, text)) => {
                    let mut scanner = Scanner::new(text.to_string());
                    match scanner.scan() {
                        Ok(()) => interpreter.resume_import(Ok(decoded(scanner.into_tokens()))),
                        Err(errors) => {
                            interpreter.resume_import(Err(InterpreterError::LoxErrors(errors)))
                        }
                    }
                }
                None => interpreter.import_failed(
                    line,
                    std::io::Error::new(std::io::ErrorKind::NotFound, "no such file"),
                ),
            },
            Action::Finished(result) => return Run { result, printed },
        }
    }
}

fn run_with(source: &str, files: &[(&str, &str)]) -> Run {
    let mut parser = Parser::new(tokens_of(source));
    let program = parser.parse().unwrap();
    let mut interpreter = Interpreter::new();
    interpreter.define("print", native("print", 1));
    interpreter.define("clock", native("clock", 0));
    interpreter.define("fail", native("fail", 0));
    let first = interpreter.interpret(&program);
    drive(&mut interpreter, first, files)
}

fn run(source: &str) -> Run {
    run_with(source, &[])
}

fn error_of(run: Run) -> (String, i32) {
    match run.result {
        Err(InterpreterError::LoxError(e)) => (e.description().to_string(), e.line()),
        other => panic!("no error: {:?}", other),
    }
}

#[test]
fn sum_of_two_variables_is_printed_once() {
    let r = run("var a = 1; var b = 2; print(a+b);");
    assert!(r.result.is_ok());
    assert_eq!(r.printed.len(), 1);
    assert_eq!(as_f64(&r.printed[0]), 3.0);
}

#[test]
fn inner_shadow_does_not_leak() {
    let r = run("var x = 1; { var x = 2; } print(x);");
    assert!(r.result.is_ok());
    assert_eq!(r.printed.len(), 1);
    assert_eq!(as_f64(&r.printed[0]), 1.0);
}

#[test]
fn adding_number_and_text_is_a_type_error() {
    let (message, line) = error_of(run("1 + \"a\";"));
    assert_eq!(message, "Can't add two different types");
    assert!(message.contains("different types"));
    assert_eq!(line, 0);
}

#[test]
fn free_variables_resolve_in_the_callers_scope() {
    let r = run(
        "var x = \"outer\";\nfun show() { print(x); }\nfun wrapper() { var x = \"inner\"; show(); }\nwrapper();",
    );
    assert!(r.result.is_ok());
    assert_eq!(r.printed.len(), 1);
    assert_eq!(as_text(&r.printed[0]), "inner");
}

#[test]
fn scopes_of_a_call_are_left_afterwards() {
    let r = run(
        "var x = \"outer\";\nfun wrapper() { var x = \"inner\"; }\nwrapper();\nprint(x);",
    );
    assert!(r.result.is_ok());
    assert_eq!(as_text(&r.printed[0]), "outer");
}

#[test]
fn arity_mismatch_names_expected_and_actual() {
    let (message, line) = error_of(run("fun f(a) { }\nf();"));
    assert_eq!(message, "Expected 1 arguments but got 0");
    assert_eq!(line, 1);
}

#[test]
fn arity_of_a_native_is_checked() {
    let (message, _) = error_of(run("print(1, 2);"));
    assert_eq!(message, "Expected 1 arguments but got 2");
}

#[test]
fn arithmetic_follows_precedence() {
    let r = run("print(1 + 2 * 3 - 8 / 4);");
    assert_eq!(as_f64(&r.printed[0]), 5.0);
}

#[test]
fn texts_are_joined() {
    let r = run("print(\"ab\" + \"cd\");");
    assert_eq!(as_text(&r.printed[0]), "abcd");
}

#[test]
fn unary_minus_negates() {
    let r = run("print(-3); print(--3);");
    assert_eq!(as_f64(&r.printed[0]), -3.0);
    assert_eq!(as_f64(&r.printed[1]), 3.0);
}

#[test]
fn unary_minus_wants_a_number() {
    let (message, line) = error_of(run("-\"a\";"));
    assert_eq!(message, "Failed to cast LoxType into f64");
    assert_eq!(line, 0);
}

#[test]
fn bang_goes_by_truthiness() {
    let r = run("print(!nil); print(!0); print(!\"\"); print(!false); print(!true);");
    let got: Vec<bool> = r.printed.iter().map(|v| matches!(v, LoxType::Boolean(true))).collect();
    assert_eq!(got, vec![true, false, false, true, false]);
}

#[test]
fn logical_operators_short_circuit() {
    let r = run("print(nil or 2); print(1 or fail()); print(nil and fail()); print(1 and 2);");
    assert!(r.result.is_ok());
    assert_eq!(as_f64(&r.printed[0]), 2.0);
    assert_eq!(as_f64(&r.printed[1]), 1.0);
    assert!(matches!(r.printed[2], LoxType::Nil));
    assert_eq!(as_f64(&r.printed[3]), 2.0);
}

#[test]
fn comparisons_across_kinds_are_false() {
    let r = run("print(1 < \"a\"); print(1 >= \"a\"); print(1 == \"1\"); print(1 != \"1\"); print(nil <= nil);");
    let got: Vec<bool> = r.printed.iter().map(|v| matches!(v, LoxType::Boolean(true))).collect();
    assert_eq!(got, vec![false, false, false, true, true]);
}

#[test]
fn numbers_and_texts_are_ordered() {
    let r = run("print(1 < 2); print(2 <= 2); print(3 > 4); print(\"a\" < \"b\"); print(\"b\" < \"ab\"); print(-1 < 0.5);");
    let got: Vec<bool> = r.printed.iter().map(|v| matches!(v, LoxType::Boolean(true))).collect();
    assert_eq!(got, vec![true, true, false, true, false, true]);
}

#[test]
fn functions_are_never_equal() {
    let r = run("fun f() { } print(f == f); print(f != f);");
    let got: Vec<bool> = r.printed.iter().map(|v| matches!(v, LoxType::Boolean(true))).collect();
    assert_eq!(got, vec![false, true]);
}

#[test]
fn while_loop_counts() {
    let r = run("var i = 0; while (i < 3) { print(i); i = i + 1; }");
    assert!(r.result.is_ok());
    let got: Vec<f64> = r.printed.iter().map(as_f64).collect();
    assert_eq!(got, vec![0.0, 1.0, 2.0]);
}

#[test]
fn for_loop_is_a_while_loop() {
    let r = run("for (var i = 0; i < 3; i = i + 1) print(i);");
    assert!(r.result.is_ok());
    let got: Vec<f64> = r.printed.iter().map(as_f64).collect();
    assert_eq!(got, vec![0.0, 1.0, 2.0]);
}

#[test]
fn if_takes_exactly_one_branch() {
    let r = run("if (1 < 2) print(\"then\"); else print(\"else\"); if (nil) print(\"no\");");
    assert_eq!(r.printed.len(), 1);
    assert_eq!(as_text(&r.printed[0]), "then");
}

#[test]
fn return_gives_the_value_of_the_call() {
    let r = run("fun twice(n) { return n * 2; print(0); } print(twice(4));");
    assert!(r.result.is_ok());
    assert_eq!(r.printed.len(), 1);
    assert_eq!(as_f64(&r.printed[0]), 8.0);
}

#[test]
fn return_leaves_loops_and_blocks() {
    let r = run("var x = 5; fun f() { while (true) { { return 1; } } } print(f()); print(x);");
    assert!(r.result.is_ok());
    assert_eq!(as_f64(&r.printed[0]), 1.0);
    assert_eq!(as_f64(&r.printed[1]), 5.0);
}

#[test]
fn function_without_return_gives_nil() {
    let r = run("fun f() { } print(f());");
    assert!(matches!(r.printed[0], LoxType::Nil));
}

#[test]
fn recursion_works() {
    let r = run("fun fib(n) { if (n < 2) return n; return fib(n - 1) + fib(n - 2); } print(fib(10));");
    assert!(r.result.is_ok());
    assert_eq!(as_f64(&r.printed[0]), 55.0);
}

#[test]
fn return_outside_a_function_is_an_error() {
    let (message, line) = error_of(run("\nreturn 1;"));
    assert_eq!(message, "Return outside of a function");
    assert_eq!(line, 1);
}

#[test]
fn undefined_variable_is_an_error() {
    let (message, line) = error_of(run("var a = 1;\nprint(b);"));
    assert_eq!(message, "Variable not found");
    assert_eq!(line, 1);
}

#[test]
fn assignment_to_undefined_variable_is_an_error() {
    let (message, line) = error_of(run("\n\nb = 1;"));
    assert_eq!(message, "Undefined variable");
    assert_eq!(line, 2);
}

#[test]
fn assignment_changes_the_nearest_binding_and_yields_nil() {
    let r = run("var a = 1; { a = 2; var a = 3; a = 4; print(a); } print(a); print(a = 5);");
    assert!(r.result.is_ok());
    assert_eq!(as_f64(&r.printed[0]), 4.0);
    assert_eq!(as_f64(&r.printed[1]), 2.0);
    assert!(matches!(r.printed[2], LoxType::Nil));
}

#[test]
fn calling_a_number_is_an_error() {
    let (message, line) = error_of(run("var a = 1;\na();"));
    assert_eq!(message, "Expected callable object but got normal type");
    assert_eq!(line, 1);
}

#[test]
fn error_in_a_block_restores_the_scope() {
    let mut parser = Parser::new(tokens_of("var x = 1; { var x = 2; { var x = 3; y; } }"));
    let program = parser.parse().unwrap();
    let mut interpreter = Interpreter::new();
    let first = interpreter.interpret(&program);
    let r = drive(&mut interpreter, first, &[]);
    assert!(r.result.is_err());
    assert!(interpreter.env.enclosing.is_none());
    assert_eq!(as_f64(&interpreter.env.get("x").unwrap()), 1.0);
}

#[test]
fn error_of_a_native_unwinds() {
    let (message, line) = error_of(run("fun f() { fail(); print(1); } f(); print(2);"));
    assert_eq!(message, "native failed");
    assert_eq!(line, 7);
}

#[test]
fn import_merges_top_level_bindings() {
    let r = run_with(
        "var a = 1; import \"lib\"; print(a); print(b);",
        &[("lib", "var a = 10; var b = 20; { var c = 30; }")],
    );
    assert!(r.result.is_ok());
    assert_eq!(as_f64(&r.printed[0]), 10.0);
    assert_eq!(as_f64(&r.printed[1]), 20.0);
}

#[test]
fn imported_program_does_not_see_the_importer() {
    let r = run_with(
        "var a = 1; import \"lib\"; print(b);",
        &[("lib", "var b = 2; print(a); var b = 3;")],
    );
    assert!(r.result.is_ok());
    assert_eq!(r.printed.len(), 1);
    assert_eq!(as_f64(&r.printed[0]), 2.0);
}

#[test]
fn import_of_a_missing_file_is_an_error() {
    let (message, line) = error_of(run("\nimport \"nowhere\";"));
    assert_eq!(message, "Imported file couldn't be opened");
    assert_eq!(line, 1);
}

#[test]
fn import_with_lexical_errors_fails_with_all_of_them() {
    let r = run_with("import \"bad\";", &[("bad", "var a = 1 @ 2 #")]);
    match r.result {
        Err(InterpreterError::LoxErrors(errors)) => assert_eq!(errors.len(), 2),
        other => panic!("unexpected: {:?}", other),
    }
}

#[test]
fn import_with_a_syntax_error_fails() {
    let (message, _) = error_of(run_with("import \"bad\";", &[("bad", "var = 1;")]));
    assert_eq!(message, "Expected variable name");
}

#[test]
fn native_clock_gives_a_number() {
    let r = run("print(clock());");
    assert_eq!(as_f64(&r.printed[0]), 12345.0);
}

#[test]
fn value_of_the_last_expression_is_the_result() {
    let r = run("1 + 2;");
    assert_eq!(as_f64(&r.result.unwrap()), 3.0);
}

#[test]
fn run_stops_at_the_first_request() {
    let mut parser = Parser::new(tokens_of("var a = 1; var b = a + 2; print(b);"));
    let program = parser.parse().unwrap();
    let mut interpreter = Interpreter::new();
    lox_std::provide(&mut interpreter);
    match interpreter.interpret(&program) {
        Action::Arithmetic(Operator::Add, a, b) => {
            assert_eq!(f64::from_bits(a.to_bits()), 1.0);
            assert_eq!(f64::from_bits(b.to_bits()), 2.0);
        }
        other => panic!("unexpected {:?}", other),
    }
    assert!(matches!(interpreter.resume(Ok(number(3.0))), Action::Continue));
    match interpreter.run(u64::MAX) {
        Action::Call(name, args) => {
            assert_eq!(name, "print");
            assert_eq!(args.len(), 1);
            assert_eq!(as_f64(&args[0]), 3.0);
        }
        other => panic!("unexpected {:?}", other),
    }
    assert!(matches!(interpreter.resume(Ok(LoxType::Nil)), Action::Continue));
    assert!(matches!(interpreter.run(u64::MAX), Action::Finished(Ok(LoxType::Nil))));
}

#[test]
fn run_spends_no_more_than_its_budget() {
    let mut parser = Parser::new(tokens_of("while (true) { }"));
    let program = parser.parse().unwrap();
    let mut interpreter = Interpreter::new();
    interpreter.load(&program);
    assert!(matches!(interpreter.run(0), Action::Continue));
    assert!(matches!(interpreter.run(1000), Action::Continue));
    assert!(matches!(interpreter.run(1000), Action::Continue));
    assert!(interpreter.env.enclosing.is_none() || interpreter.env.enclosing.as_ref().unwrap().enclosing.is_none());
}

#[test]
fn step_with_nothing_to_do_finishes() {
    let mut interpreter = Interpreter::new();
    assert!(matches!(interpreter.step(), Action::Finished(Ok(LoxType::Nil))));
}

#[test]
fn evaluate_takes_the_first_step_of_an_expression() {
    let mut interpreter = Interpreter::new();
    let e = Expr::Literal(number(4.0));
    assert!(matches!(interpreter.eval(&e), Action::Continue));
    match interpreter.step() {
        Action::Finished(Ok(v)) => assert_eq!(as_f64(&v), 4.0),
        other => panic!("unexpected {:?}", other),
    }
}

#[test]
fn interpret_block_runs_in_a_scope_of_its_own() {
    let program = Parser::new(tokens_of("var a = 2; b = a;")).parse().unwrap();
    let mut interpreter = Interpreter::new();
    interpreter.define("b", number(1.0));
    let first = interpreter.interpret_block(&program, None);
    let r = drive(&mut interpreter, first, &[]);
    assert!(r.result.is_ok());
    assert!(interpreter.env.enclosing.is_none());
    assert!(!interpreter.env.contains("a"));
    assert_eq!(as_f64(&interpreter.env.get("b").unwrap()), 2.0);
}

#[test]
fn interpret_block_takes_an_environment() {
    let program = Parser::new(tokens_of("b = a;")).parse().unwrap();
    let mut given = Environment::new();
    given.define("a", number(5.0));
    given.define("b", LoxType::Nil);
    let mut interpreter = Interpreter::new();
    let first = interpreter.interpret_block(&program, Some(given));
    let r = drive(&mut interpreter, first, &[]);
    assert!(r.result.is_ok());
    assert_eq!(as_f64(&interpreter.env.get("b").unwrap()), 5.0);
}

#[test]
fn import_asks_for_the_file() {
    let mut interpreter = Interpreter::new();
    let file = Token {
        token: TokenType::String,
        lexeme: "\"lib\"".to_string(),
        line: 9,
        literal: Some(LoxType::String("lib".to_string())),
    };
    match interpreter.import(file) {
        Action::Import(path, line) => {
            assert_eq!(path, "lib");
            assert_eq!(line, 9);
        }
        other => panic!("unexpected {:?}", other),
    }
}

#[test]
fn import_without_a_path_is_an_error() {
    let mut interpreter = Interpreter::new();
    let file = Token { token: TokenType::String, lexeme: "x".to_string(), line: 9, literal: None };
    match interpreter.import(file) {
        Action::Finished(Err(InterpreterError::LoxError(e))) => {
            assert_eq!(e.description(), "Import without a path");
            assert_eq!(e.line(), 9);
        }
        other => panic!("unexpected {:?}", other),
    }
}

#[test]
fn imported_tokens_must_end_with_end_of_input() {
    let mut interpreter = Interpreter::new();
    match interpreter.resume_import(Ok(Vec::new())) {
        Action::Finished(Err(InterpreterError::LoxError(e))) => {
            assert_eq!(e.description(), "Imported file has no end");
        }
        other => panic!("unexpected {:?}", other),
    }
}

#[test]
fn failure_inside_an_import_is_dropped_and_bindings_are_merged() {
    let r = run_with(
        "import \"lib\"; print(a); print(1);",
        &[("lib", "var a = 7; { var b = 1; nowhere; } var c = 8;")],
    );
    assert!(r.result.is_ok());
    assert_eq!(as_f64(&r.printed[0]), 7.0);
    assert_eq!(r.printed.len(), 2);
}

#[test]
fn function_call_enters_the_body() {
    let program = Parser::new(tokens_of("fun f(a, b) { return b; }")).parse().unwrap();
    let f = LoxFun::new(program[0].clone());
    let mut interpreter = Interpreter::new();
    let first = f.call(&mut interpreter, vec![number(1.0), number(2.0)]);
    assert!(matches!(first, Action::Continue));
    let r = drive(&mut interpreter, first, &[]);
    assert_eq!(as_f64(&r.result.unwrap()), 2.0);
    assert!(interpreter.env.enclosing.is_none());
}

#[test]
fn call_of_a_value_that_declares_no_function_gives_nil() {
    let f = LoxFun::new(Rc::new(Statement::Block(Vec::new())));
    let mut interpreter = Interpreter::new();
    interpreter.define("x", number(1.0));
    assert!(matches!(f.call(&mut interpreter, Vec::new()), Action::Continue));
    assert!(matches!(interpreter.step(), Action::Finished(Ok(LoxType::Nil))));
}

#[test]
fn natives_are_provided_under_their_names() {
    let mut interpreter = Interpreter::new();
    lox_std::provide(&mut interpreter);
    for (name, arity) in [("clock", 0), ("print", 1), ("readline", 0)] {
        match interpreter.env.get(name) {
            Some(LoxType::Callable(Callable::Native(n))) => {
                assert_eq!(n.name, name);
                assert_eq!(n.arity, arity);
            }
            other => panic!("unexpected {:?}", other),
        }
    }
}

#[test]
fn parameters_shadow_and_later_parameters_win() {
    let r = run("var a = 1; fun f(a, a) { print(a); } f(2, 3); print(a);");
    assert!(r.result.is_ok());
    assert_eq!(as_f64(&r.printed[0]), 3.0);
    assert_eq!(as_f64(&r.printed[1]), 1.0);
}

#[test]
fn arguments_are_evaluated_left_to_right() {
    let r = run("fun f(a, b, c) { } fun g(n) { print(n); return n; } f(g(1), g(2), g(3));");
    assert!(r.result.is_ok());
    let got: Vec<f64> = r.printed.iter().map(as_f64).collect();
    assert_eq!(got, vec![1.0, 2.0, 3.0]);
}

#[test]
fn division_and_nan() {
    let r = run("print(1 / 0); print(0 / 0 == 0 / 0); print(0 / 0 < 1); print(-0 == 0);");
    assert_eq!(as_f64(&r.printed[0]), f64::INFINITY);
    assert!(matches!(r.printed[1], LoxType::Boolean(false)));
    assert!(matches!(r.printed[2], LoxType::Boolean(false)));
    assert!(matches!(r.printed[3], LoxType::Boolean(true)));
}

#[test]
fn arithmetic_wants_numbers() {
    for source in ["1 - \"a\";", "nil * 2;", "true / false;"] {
        let (message, line) = error_of(run(source));
        assert_eq!(message, "Failed to cast LoxType into f64");
        assert_eq!(line, 0);
    }
}

#[test]
fn evaluate_gives_the_value_of_an_expression() {
    let program = Parser::new(tokens_of("(true or false) == !nil;")).parse().unwrap();
    let mut interpreter = Interpreter::new();
    match &*program[0] {
        Statement::Expression(e) => match interpreter.evaluate(e) {
            Action::Finished(Ok(LoxType::Boolean(b))) => assert!(b),
            other => panic!("unexpected {:?}", other),
        },
        other => panic!("unexpected {:?}", other),
    }
}

#[test]
fn evaluate_of_an_unbound_variable_fails() {
    let program = Parser::new(tokens_of("a;")).parse().unwrap();
    let mut interpreter = Interpreter::new();
    match &*program[0] {
        Statement::Expression(e) => match interpreter.evaluate(e) {
            Action::Finished(Err(InterpreterError::LoxError(e))) => {
                assert_eq!(e.description(), "Variable not found")
            }
            other => panic!("unexpected {:?}", other),
        },
        other => panic!("unexpected {:?}", other),
    }
}

#[test]
fn interpret_runs_a_program_that_asks_nothing() {
    let program = Parser::new(tokens_of("var a = true; var b = !a; b;")).parse().unwrap();
    let mut interpreter = Interpreter::new();
    assert!(matches!(
        interpreter.interpret(&program),
        Action::Finished(Ok(LoxType::Boolean(false)))
    ));
    assert!(matches!(interpreter.env.get("a"), Some(LoxType::Boolean(true))));
}

#[test]
fn clock_answers_its_call() {
    let program = Parser::new(tokens_of("var t = clock(); t;")).parse().unwrap();
    let mut interpreter = Interpreter::new();
    lox_std::provide(&mut interpreter);
    match interpreter.interpret(&program) {
        Action::Call(name, args) => {
            assert_eq!(name, "clock");
            assert!(args.is_empty());
        }
        other => panic!("unexpected {:?}", other),
    }
    assert!(matches!(lox_std::Clock.call(&mut interpreter, 1_700_000_000), Action::Continue));
    match interpreter.run(u64::MAX) {
        Action::Finished(Ok(v)) => assert_eq!(as_f64(&v), 1.7e9),
        other => panic!("unexpected {:?}", other),
    }
}

fn written(program: &Vec<Rc<Statement>>) -> String {
    let mut out = String::new();
    for s in program {
        for p in s.pieces() {
            match p {
                Piece::Text(t) => out.push_str(&t),
                Piece::Number(n) => out.push_str(&format!("{}", f64::from_bits(n.to_bits()))),
            }
        }
        out.push('\n');
    }
    out
}

fn shown(v: &LoxType) -> String {
    let mut out = String::new();
    for p in v.pieces() {
        match p {
            Piece::Text(t) => out.push_str(&t),
            Piece::Number(n) => out.push_str(&format!("{}", f64::from_bits(n.to_bits()))),
        }
    }
    out
}

fn observed(r: Run) -> (Vec<String>, String) {
    let printed = r.printed.iter().map(shown).collect();
    let result = match r.result {
        Ok(v) => format!("ok {}", shown(&v)),
        Err(InterpreterError::LoxError(e)) => format!("error {}", e.description()),
        Err(other) => format!("{:?}", other),
    };
    (printed, result)
}

#[test]
fn what_is_written_runs_as_what_was_parsed() {
    for source in [
        "var a = 1; var b = 2; print(a+b);",
        "var x = 1; { var x = 2; print(x); } print(x);",
        "print(1 + 2 * 3 - 8 / 4); print((1 + 2) * 3); print(1 - (2 - 3)); print(-(1 + 2));",
        "print(\"ab\" + \"cd\"); print(\"a\" < \"b\"); print(1 == 1); print(nil or 2 and 3);",
        "var i = 0; while (i < 3) { print(i); i = i + 1; }",
        "for (var i = 0; i < 3; i = i + 1) print(i * i);",
        "if (1 < 2) print(\"then\"); else print(\"else\"); if (nil) print(\"no\");",
        "fun fib(n) { if (n < 2) return n; return fib(n - 1) + fib(n - 2); } print(fib(10));",
        "var x = \"outer\"; fun show() { print(x); } fun wrapper() { var x = \"inner\"; show(); } wrapper();",
        "fun f(a) { } f();",
        "1 + \"a\";",
        "var a = 1; a = a + 1; print(a = 5); print(a); b = 1;",
        "return 1;",
        "print(!nil); print(!0); print(!!true); print(--3);",
        "1 + 2;",
    ] {
        let once = Parser::new(tokens_of(source)).parse().unwrap();
        let text = written(&once);
        let first = observed(run(source));
        let second = observed(run(&text));
        assert_eq!(first, second, "{}", text);
    }
}

#[test]
fn a_sum_built_by_hand_is_written_and_evaluates_to_the_same() {
    let plus = Token { token: TokenType::Plus, lexeme: "+".to_string(), line: 0, literal: None };
    let e = Expr::Binary(
        Rc::new(Expr::Literal(number(1.0))),
        plus,
        Rc::new(Expr::Literal(number(2.0))),
    );
    let program = vec![Rc::new(Statement::Expression(e))];
    let text = written(&program);
    assert_eq!(text, "1 + 2;\n");
    let mut interpreter = Interpreter::new();
    let first = interpreter.interpret(&program);
    let direct = drive(&mut interpreter, first, &[]);
    assert_eq!(as_f64(&direct.result.unwrap()), 3.0);
    let again = run(&text);
    assert_eq!(as_f64(&again.result.unwrap()), 3.0);
}

#[test]
fn operator_errors_carry_the_line_of_the_operator() {
    let (message, line) = error_of(run("\n\n1 +\n\"a\";"));
    assert_eq!(message, "Can't add two different types");
    assert_eq!(line, 2);
    let (message, line) = error_of(run("\n-\"a\";"));
    assert_eq!(message, "Failed to cast LoxType into f64");
    assert_eq!(line, 1);
    let (message, line) = error_of(run("\n\n\nnil * 2;"));
    assert_eq!(message, "Failed to cast LoxType into f64");
    assert_eq!(line, 3);
}

#[test]
fn import_of_a_missing_file_keeps_the_cause_and_the_bindings() {
    let program = Parser::new(tokens_of("var a = 1;\nimport \"nowhere\";")).parse().unwrap();
    let mut interpreter = Interpreter::new();
    let first = interpreter.interpret(&program);
    let r = drive(&mut interpreter, first, &[]);
    match r.result {
        Err(InterpreterError::LoxError(e)) => {
            assert_eq!(e.description(), "Imported file couldn't be opened");
            assert_eq!(e.line(), 1);
            assert_eq!(e.cause().unwrap().kind(), std::io::ErrorKind::NotFound);
        }
        other => panic!("unexpected {:?}", other),
    }
    assert_eq!(as_f64(&interpreter.get("a").unwrap()), 1.0);
    assert!(interpreter.get("b").is_none());
    assert!(interpreter.environment().contains("a"));
}

#[test]
fn an_error_of_a_native_keeps_its_cause() {
    let mut interpreter = Interpreter::new();
    let cause = std::io::Error::new(std::io::ErrorKind::BrokenPipe, "closed");
    let error = LoxError::with_lower("native failed".to_string(), 3, cause);
    match interpreter.resume(Err(error)) {
        Action::Finished(Err(InterpreterError::LoxError(e))) => {
            assert_eq!(e.cause().unwrap().kind(), std::io::ErrorKind::BrokenPipe)
        }
        other => panic!("unexpected {:?}", other),
    }
}
