use lax::parser::{ends_with_end_of_input, FunKind, Parser};
use lax::render::Piece;
use lax::scanner::{attach, numerals, Scanner};
use lax::{Expr, LoxType, Number, Statement, Token, TokenType};
use std::rc::Rc;

fn tokens_of(source: &str) -> Vec<Token> {
    let mut scanner = Scanner::new(source.to_string());
    scanner.scan().unwrap();
    let tokens = scanner.into_tokens();
    let numbers: Vec<Number> = numerals(&tokens)
        .iter()
        .map(|n| Number::from_bits(n.parse::<f64>().unwrap().to_bits()))
        .collect();
    attach(&tokens, &numbers)
}

fn parse(source: &str) -> Vec<Rc<Statement>> {
    Parser::new(tokens_of(source)).parse().unwrap()
}

fn written(pieces: Vec<Piece>) -> String {
    let mut out = String::new();
    for p in pieces {
        match p {
            Piece::Text(s) => out.push_str(&s),
            Piece::Number(n) => out.push_str(&format!("{}", f64::from_bits(n.to_bits()))),
        }
    }
    out
}

fn shape_expr(e: &Expr) -> String {
    match e {
        Expr::Binary(l, op, r) => format!("({} {} {})", op.lexeme, shape_expr(l), shape_expr(r)),
        Expr::Grouping(x) => format!("(group {})", shape_expr(x)),
        Expr::Literal(v) => written(v.pieces()),
        Expr::Unary(op, x) => format!("({} {})", op.lexeme, shape_expr(x)),
        Expr::Variable(t) => format!("var({})", t.lexeme),
        Expr::Assign(t, x) => format!("{} = {}", t.lexeme, shape_expr(x)),
        Expr::Logical(l, op, r) => format!("({} {} {})", shape_expr(l), op.lexeme, shape_expr(r)),
        Expr::Call(c, _, args) => {
            let mut out = format!("{}(", shape_expr(c));
            for a in args {
                out.push_str(&shape_expr(a));
                out.push(',');
            }
            out.push(')');
            out
        }
    }
}

fn shape(s: &Statement) -> String {
    match s {
        Statement::Expression(e) => format!("{};", shape_expr(e)),
        Statement::Variable(t, Some(e)) => format!("var {} = {};", t.lexeme, shape_expr(e)),
        Statement::Variable(t, None) => format!("var {};", t.lexeme),
        Statement::Block(items) => {
            let mut out = "{\n".to_string();
            for i in items {
                out.push_str(&shape(i));
                out.push('\n');
            }
            out.push_str("}\n");
            out
        }
        Statement::If(c, t, e) => {
            let mut out = format!("if {}\n{}\n", shape_expr(c), shape(t));
            if let Some(x) = e {
                out.push_str(&format!("else\n{}\n", shape(x)));
            }
            out
        }
        Statement::While(c, b) => format!("while {}\n{}\n", shape_expr(c), shape(b)),
        Statement::Function(t, params, body) => {
            let names: Vec<&str> = params.iter().map(|p| p.lexeme.as_str()).collect();
            format!("<fn {}({})>\n{}", t.lexeme, names.join(","), shape(body))
        }
        Statement::Return(_, e) => format!("return {}\n", shape_expr(e)),
        Statement::Import(t) => format!("import {}\n", t.lexeme),
    }
}

fn show(source: &str) -> String {
    let program = parse(source);
    assert_eq!(program.len(), 1);
    shape(&program[0])
}

fn text_of(program: &Vec<Rc<Statement>>) -> String {
    let mut out = String::new();
    for s in program {
        out.push_str(&written(s.pieces()));
        out.push('\n');
    }
    out
}

fn shapes(program: &Vec<Rc<Statement>>) -> Vec<String> {
    program.iter().map(|s| shape(s)).collect()
}

fn round_trip(source: &str) -> String {
    let once = parse(source);
    let text = text_of(&once);
    let twice = parse(&text);
    assert_eq!(shapes(&once), shapes(&twice), "{}", text);
    assert_eq!(text_of(&twice), text);
    text
}

fn failure(source: &str) -> (String, i32) {
    match Parser::new(tokens_of(source)).parse() {
        Ok(_) => panic!("parsed"),
        Err(e) => (e.description().to_string(), e.line()),
    }
}

#[test]
fn multiplication_binds_tighter_than_addition() {
    assert_eq!(show("1 + 2 * 3;"), "(+ 1 (* 2 3));");
    assert_eq!(show("1 * 2 + 3;"), "(+ (* 1 2) 3);");
}

#[test]
fn binary_operators_are_left_associative() {
    assert_eq!(show("1 - 2 - 3;"), "(- (- 1 2) 3);");
    assert_eq!(show("8 / 4 / 2;"), "(/ (/ 8 4) 2);");
    assert_eq!(show("1 < 2 < 3;"), "(< (< 1 2) 3);");
    assert_eq!(show("1 == 2 != 3;"), "(!= (== 1 2) 3);");
}

#[test]
fn logical_operators_are_left_associative_and_or_is_loosest() {
    assert_eq!(show("a or b or c;"), "((var(a) or var(b)) or var(c));");
    assert_eq!(show("a and b and c;"), "((var(a) and var(b)) and var(c));");
    assert_eq!(show("a or b and c;"), "(var(a) or (var(b) and var(c)));");
    assert_eq!(show("a and b == c;"), "(var(a) and (== var(b) var(c)));");
}

#[test]
fn comparison_binds_tighter_than_equality() {
    assert_eq!(show("1 == 2 < 3;"), "(== 1 (< 2 3));");
    assert_eq!(show("1 + 2 >= 3;"), "(>= (+ 1 2) 3);");
}

#[test]
fn unary_operators_nest() {
    assert_eq!(show("!-a;"), "(! (- var(a)));");
    assert_eq!(show("-1 * 2;"), "(* (- 1) 2);");
}

#[test]
fn grouping_is_kept() {
    assert_eq!(show("(1 + 2) * 3;"), "(* (group (+ 1 2)) 3);");
}

#[test]
fn assignment_is_right_associative() {
    assert_eq!(show("a = b = 1;"), "a = b = 1;");
}

#[test]
fn assignment_target_must_be_a_variable() {
    assert_eq!(failure("\n1 = 2;"), ("Invalid assignment target".to_string(), 1));
    assert_eq!(failure("(a) = 2;"), ("Invalid assignment target".to_string(), 0));
}

#[test]
fn literals() {
    assert_eq!(show("true;"), "true;");
    assert_eq!(show("false;"), "false;");
    assert_eq!(show("nil;"), "nil;");
    assert_eq!(show("1.5;"), "1.5;");
    assert_eq!(show("\"text\";"), "text;");
}

#[test]
fn number_without_a_value_is_an_error() {
    let mut scanner = Scanner::new("\n1;".to_string());
    scanner.scan().unwrap();
    match Parser::new(scanner.into_tokens()).parse() {
        Ok(_) => panic!("parsed"),
        Err(e) => {
            assert_eq!(e.description(), "Literal without a value");
            assert_eq!(e.line(), 1);
        }
    }
}

#[test]
fn calls_take_arguments() {
    assert_eq!(show("f();"), "var(f)();");
    assert_eq!(show("f(1, a + 2);"), "var(f)(1,(+ var(a) 2),);");
    assert_eq!(failure("f(1, 2;"), ("Expected ')' after arguments".to_string(), 0));
}

#[test]
fn only_one_call_suffix_is_taken() {
    assert_eq!(failure("f(1)(2);"), ("Expected a ';' after expression".to_string(), 0));
}

#[test]
fn variable_declarations() {
    assert_eq!(show("var a = 1;"), "var a = 1;");
    assert_eq!(show("var a;"), "var a;");
    assert_eq!(failure("var 1;"), ("Expected variable name".to_string(), 0));
    assert_eq!(
        failure("var a = 1"),
        ("Expected ';' after variable declaration".to_string(), 0)
    );
}

#[test]
fn blocks_hold_declarations() {
    assert_eq!(show("{ var a = 1; a; }"), "{\nvar a = 1;\nvar(a);\n}\n");
    assert_eq!(show("{}"), "{\n}\n");
    assert_eq!(failure("{ a;"), ("Expected '}' after block".to_string(), 0));
}

#[test]
fn if_with_and_without_else() {
    assert_eq!(show("if (a) b;"), "if var(a)\nvar(b);\n");
    assert_eq!(show("if (a) b; else c;"), "if var(a)\nvar(b);\nelse\nvar(c);\n");
    assert_eq!(failure("if a) b;"), ("Expected '(' after 'if'".to_string(), 0));
    assert_eq!(failure("if (a b;"), ("Expected ')' after 'if' condition".to_string(), 0));
}

#[test]
fn else_belongs_to_the_nearest_if() {
    assert_eq!(
        show("if (a) if (b) c; else d;"),
        "if var(a)\nif var(b)\nvar(c);\nelse\nvar(d);\n\n"
    );
}

#[test]
fn while_statement() {
    assert_eq!(show("while (a) b;"), "while var(a)\nvar(b);\n");
    assert_eq!(failure("while a) b;"), ("Expected '(' after while".to_string(), 0));
    assert_eq!(failure("while (a b;"), ("Expected ')' after while".to_string(), 0));
}

#[test]
fn for_is_desugared_into_while() {
    assert_eq!(
        show("for (var i = 0; i < 3; i = i + 1) f(i);"),
        "{\nvar i = 0;\nwhile (< var(i) 3)\n{\nvar(f)(var(i),);\ni = (+ var(i) 1);\n}\n\n\n}\n"
    );
    assert_eq!(show("for (;;) f();"), "while true\nvar(f)();\n");
    assert_eq!(show("for (i = 0;;) f();"), "{\ni = 0;\nwhile true\nvar(f)();\n\n}\n");
    assert_eq!(show("for (; a; b) c;"), "while var(a)\n{\nvar(c);\nvar(b);\n}\n\n");
}

#[test]
fn for_errors() {
    assert_eq!(failure("for a"), ("Expected '(' after 'for'".to_string(), 0));
    assert_eq!(failure("for (; a) b;"), ("Expected ';' after loop condition".to_string(), 0));
    assert_eq!(failure("for (;; a b;"), ("Expected ')' after for clauses".to_string(), 0));
}

#[test]
fn function_declaration() {
    let program = parse("fun f(a, b) { return a; }");
    match &*program[0] {
        Statement::Function(name, params, body) => {
            assert_eq!(name.lexeme, "f");
            let names: Vec<&str> = params.iter().map(|t| t.lexeme.as_str()).collect();
            assert_eq!(names, vec!["a", "b"]);
            assert!(matches!(**body, Statement::Block(_)));
            assert_eq!(shape(body), "{\nreturn var(a)\n\n}\n");
        }
        other => panic!("unexpected {:?}", other),
    }
    assert_eq!(show("fun f() { }"), "<fn f()>\n{\n}\n");
}

#[test]
fn function_errors() {
    assert_eq!(failure("fun (a) { }"), ("Expected function/method name.".to_string(), 0));
    assert_eq!(
        failure("fun f a) { }"),
        ("Expected '(' after fun name declaration".to_string(), 0)
    );
    assert_eq!(failure("fun f(1) { }"), ("Expected parameter name".to_string(), 0));
    assert_eq!(failure("fun f(a,) { }"), ("Expected parameter name".to_string(), 0));
    assert_eq!(failure("fun f(a b) { }"), ("Expected ')' after parameters.".to_string(), 0));
    assert_eq!(
        failure("fun f(a) a;"),
        ("Expected '{' before function/method body".to_string(), 0)
    );
}

#[test]
fn return_with_and_without_value() {
    assert_eq!(show("return 1;"), "return 1\n");
    assert_eq!(show("return;"), "return nil\n");
    assert_eq!(failure("return 1"), ("Expected ';' after return value".to_string(), 0));
    match &*parse("\nreturn;")[0] {
        Statement::Return(keyword, _) => {
            assert_eq!(keyword.token, TokenType::Return);
            assert_eq!(keyword.line, 1);
        }
        other => panic!("unexpected {:?}", other),
    }
}

#[test]
fn import_statement() {
    assert_eq!(show("import \"lib.lox\";"), "import \"lib.lox\"\n");
    assert_eq!(failure("import lib;"), ("Expected 'string' after 'import'".to_string(), 0));
    assert_eq!(
        failure("import \"lib\""),
        ("Expected ';' after import statement".to_string(), 0)
    );
}

#[test]
fn expression_errors() {
    assert_eq!(failure("\n\n+;"), ("Expected expression".to_string(), 2));
    assert_eq!(failure("1"), ("Expected a ';' after expression".to_string(), 0));
    assert_eq!(failure("(1;"), ("Expected ')' after expression".to_string(), 0));
}

#[test]
fn only_the_first_error_is_reported() {
    assert_eq!(failure("var 1;\nvar 2;"), ("Expected variable name".to_string(), 0));
}

#[test]
fn after_an_error_parsing_resumes_behind_the_semicolon() {
    let mut parser = Parser::new(tokens_of("var 1 2 3; a; +; b;"));
    assert!(parser.parse().is_err());
    match parser.parse() {
        Ok(_) => panic!("parsed"),
        Err(e) => assert_eq!(e.description(), "Expected expression"),
    }
    let rest = parser.parse().unwrap();
    assert_eq!(rest.len(), 1);
    assert_eq!(shape(&rest[0]), "var(b);");
}

#[test]
fn after_an_error_parsing_resumes_before_a_declaration() {
    let mut parser = Parser::new(tokens_of("a b c var d = 1;"));
    assert!(parser.parse().is_err());
    let rest = parser.parse().unwrap();
    assert_eq!(rest.len(), 1);
    assert_eq!(shape(&rest[0]), "var d = 1;");
}

#[test]
fn empty_program() {
    assert_eq!(parse("").len(), 0);
}

#[test]
fn several_statements() {
    let program = parse("var a = 1; var b = 2; print(a+b);");
    assert_eq!(program.len(), 3);
    assert_eq!(shape(&program[2]), "var(print)((+ var(a) var(b)),);");
}

#[test]
fn token_sequences_must_end_with_end_of_input() {
    assert!(ends_with_end_of_input(&tokens_of("a")));
    assert!(!ends_with_end_of_input(&Vec::new()));
    let mut tokens = tokens_of("a");
    tokens.pop();
    assert!(!ends_with_end_of_input(&tokens));
}

#[test]
fn kinds_of_function() {
    assert_ne!(FunKind::Function, FunKind::Method);
}

#[test]
fn written_expressions_are_source_text() {
    let one = || Rc::new(Expr::Literal(LoxType::Number(Number::from_bits(1.0f64.to_bits()))));
    let two = || Rc::new(Expr::Literal(LoxType::Number(Number::from_bits(2.0f64.to_bits()))));
    let op = |kind: TokenType, lexeme: &str| Token {
        token: kind,
        lexeme: lexeme.to_string(),
        line: 0,
        literal: None,
    };
    let sum = Expr::Binary(one(), op(TokenType::Plus, "+"), two());
    assert_eq!(written(sum.pieces()), "1 + 2");
    assert_eq!(written(Statement::Expression(sum).pieces()), "1 + 2;");
    let sum = || Rc::new(Expr::Binary(one(), op(TokenType::Plus, "+"), two()));
    let product = Expr::Binary(sum(), op(TokenType::Star, "*"), sum());
    assert_eq!(written(product.pieces()), "(1 + 2) * (1 + 2)");
    let difference = Expr::Binary(one(), op(TokenType::Minus, "-"), sum());
    assert_eq!(written(difference.pieces()), "1 - (1 + 2)");
    let difference = Expr::Binary(sum(), op(TokenType::Minus, "-"), one());
    assert_eq!(written(difference.pieces()), "1 + 2 - 1");
    let negated = Expr::Unary(op(TokenType::Minus, "-"), sum());
    assert_eq!(written(negated.pieces()), "-(1 + 2)");
    let text = Expr::Literal(LoxType::String("a b".to_string()));
    assert_eq!(written(text.pieces()), "\"a b\"");
    let name = op(TokenType::Identifier, "x");
    let assign = Rc::new(Expr::Assign(name.clone(), one()));
    let either = Expr::Logical(assign.clone(), op(TokenType::Or, "or"), two());
    assert_eq!(written(either.pieces()), "(x = 1) or 2");
    let call = Rc::new(Expr::Call(
        Rc::new(Expr::Variable(op(TokenType::Identifier, "f"))),
        op(TokenType::RightParenthesis, ")"),
        vec![one(), sum()],
    ));
    assert_eq!(written(call.pieces()), "f(1, 1 + 2)");
    let again = Expr::Call(call, op(TokenType::RightParenthesis, ")"), vec![]);
    assert_eq!(written(again.pieces()), "(f(1, 1 + 2))()");
}

#[test]
fn written_statements_are_source_text() {
    assert_eq!(round_trip("var a = 1;"), "var a = 1;\n");
    assert_eq!(round_trip("var a;"), "var a;\n");
    assert_eq!(round_trip("{ var a = 1; a; }"), "{\nvar a = 1;\na;\n}\n");
    assert_eq!(round_trip("if (a) b; else c;"), "if (a) b; else c;\n");
    assert_eq!(round_trip("while (a < 3) a = a + 1;"), "while (a < 3) a = a + 1;\n");
    assert_eq!(
        round_trip("fun f(a, b) { return a + b; }"),
        "fun f(a, b) {\nreturn a + b;\n}\n"
    );
    assert_eq!(round_trip("fun f() { return; }"), "fun f() {\nreturn nil;\n}\n");
    assert_eq!(round_trip("import \"lib.lox\";"), "import \"lib.lox\";\n");
    assert_eq!(round_trip("print(\"a b\");"), "print(\"a b\");\n");
    assert_eq!(
        round_trip("for (var i = 0; i < 3; i = i + 1) f(i);"),
        "{\nvar i = 0;\nwhile (i < 3) {\nf(i);\ni = i + 1;\n}\n}\n"
    );
}

#[test]
fn what_is_written_parses_back_to_the_same_tree() {
    for source in [
        "true; false; nil; 12; 0.5; \"text\"; x;",
        "1 + 2 * 3 - 4 / 5;",
        "(1 + 2) * 3;",
        "1 - (2 - 3); 1 - 2 - 3; 8 / (4 / 2);",
        "a or b and c; (a or b) and c; a and (b or c);",
        "1 == 2 != 3 < 4 <= 5 > 6 >= 7;",
        "!-a; -(-1); !(a == b); -(a + b) * c; --a;",
        "a = b = c or d; a = (b = 1);",
        "f(); f(1); f(1, 2 + 3, g(x)); (f)(1); f(a = 1);",
        "var a = 1; var b; { var c = a; { b = c; } }",
        "if (a) b; if (a) b; else c; if (a) if (b) c; else d;",
        "if (a) { if (b) c; } else d;",
        "while (a) { b; c; } while (a) while (b) c;",
        "for (var i = 0; i < 10; i = i + 1) { print(i); }",
        "for (;;) f(); for (i = 0;;) f(); for (; a; b) c;",
        "fun f(a, b) { if (a) return b; return; } fun g() { } fun h(x) { fun k() { return x; } }",
        "import \"a\"; import \"b/c.lox\";",
        "a-b + c_d; x - y;",
    ] {
        round_trip(source);
    }
}
