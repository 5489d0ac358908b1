use lax::environment::Environment;
use lax::err::LoxError;
use lax::interpreter::InterpreterError;
use lax::lox_std::{native, Clock, Print, Readline};
use lax::lox_type::{compare_text, Order};
use lax::render::Piece;
use lax::text::{chars_of, push_decimal, push_signed_decimal, push_text, text_of};
use lax::{Callable, LoxFun, LoxType, Number, Statement, Token, TokenType};
use std::cmp::Ordering;
use std::rc::Rc;

fn num(x: f64) -> Number {
    Number::from_bits(x.to_bits())
}

fn number(x: f64) -> LoxType {
    LoxType::Number(num(x))
}

fn text(s: &str) -> LoxType {
    LoxType::String(s.to_string())
}

fn samples() -> Vec<f64> {
    vec![
        0.0,
        -0.0,
        1.0,
        -1.0,
        0.5,
        -0.5,
        1.0e300,
        -1.0e300,
        5e-324,
        -5e-324,
        f64::MAX,
        f64::MIN,
        f64::MIN_POSITIVE,
        f64::INFINITY,
        f64::NEG_INFINITY,
        f64::NAN,
        -f64::NAN,
        3.0,
        2.9999999999999996,
    ]
}

#[test]
fn number_comparison_is_that_of_doubles() {
    for x in samples() {
        for y in samples() {
            assert_eq!(num(x).equals(&num(y)), x == y, "{} == {}", x, y);
            assert_eq!(num(x).less(&num(y)), x < y, "{} < {}", x, y);
        }
    }
}

#[test]
fn number_negation_is_that_of_doubles() {
    for x in samples() {
        assert_eq!(num(x).negated().to_bits(), (-x).to_bits());
    }
}

#[test]
fn nan_is_recognised() {
    for x in samples() {
        assert_eq!(num(x).is_nan(), x.is_nan());
    }
}

#[test]
fn number_keeps_its_bits() {
    assert_eq!(Number::from_bits(0x4008_0000_0000_0000).to_bits(), 0x4008_0000_0000_0000);
    assert_eq!(f64::from_bits(num(3.0).to_bits()), 3.0);
}

#[test]
fn truthiness() {
    assert!(!LoxType::Nil.truthy());
    assert!(!LoxType::Boolean(false).truthy());
    assert!(LoxType::Boolean(true).truthy());
    assert!(number(0.0).truthy());
    assert!(text("").truthy());
    assert!(Clock.value().truthy());
}

#[test]
fn equality_is_within_one_kind() {
    assert!(number(1.0) == number(1.0));
    assert!(number(1.0) != number(2.0));
    assert!(text("a") == text("a"));
    assert!(text("a") != text("b"));
    assert!(LoxType::Nil == LoxType::Nil);
    assert!(LoxType::Boolean(true) == LoxType::Boolean(true));
    assert!(LoxType::Boolean(true) != LoxType::Boolean(false));
    assert!(number(1.0) != text("1"));
    assert!(LoxType::Nil != LoxType::Boolean(false));
    assert!(number(f64::NAN) != number(f64::NAN));
    assert!(number(0.0) == number(-0.0));
}

#[test]
fn callables_are_never_equal() {
    let f = Clock.value();
    assert!(f != f.clone());
    assert!(!f.equals(&f));
    assert!(f.partial_cmp(&f).is_none());
}

#[test]
fn order_is_within_one_kind() {
    assert_eq!(number(1.0).partial_cmp(&number(2.0)), Some(Ordering::Less));
    assert_eq!(number(2.0).partial_cmp(&number(2.0)), Some(Ordering::Equal));
    assert_eq!(number(3.0).partial_cmp(&number(2.0)), Some(Ordering::Greater));
    assert_eq!(number(f64::NAN).partial_cmp(&number(2.0)), None);
    assert_eq!(text("a").partial_cmp(&text("b")), Some(Ordering::Less));
    assert_eq!(LoxType::Nil.partial_cmp(&LoxType::Nil), Some(Ordering::Equal));
    assert_eq!(
        LoxType::Boolean(false).partial_cmp(&LoxType::Boolean(true)),
        Some(Ordering::Less)
    );
    assert_eq!(
        LoxType::Boolean(true).partial_cmp(&LoxType::Boolean(false)),
        Some(Ordering::Greater)
    );
    assert_eq!(number(1.0).partial_cmp(&text("a")), None);
    assert!(number(1.0) < number(2.0));
    assert!(!(number(1.0) < text("a")));
    assert!(!(number(1.0) >= text("a")));
    assert_eq!(number(1.0).order(&number(2.0)), Some(Order::Less));
}

#[test]
fn text_order_is_that_of_strings() {
    let samples = ["", "a", "ab", "abc", "b", "B", "é", "z", "日本", "a\u{10000}", "a\u{ffff}"];
    for x in samples {
        for y in samples {
            let expected = match x.cmp(y) {
                Ordering::Less => Order::Less,
                Ordering::Equal => Order::Equal,
                Ordering::Greater => Order::Greater,
            };
            assert_eq!(compare_text(x, y), expected, "{:?} {:?}", x, y);
        }
    }
}

#[test]
fn conversions() {
    assert_eq!(number(2.0).into_number().unwrap().to_bits(), 2.0f64.to_bits());
    assert_eq!(text("a").into_text().unwrap(), "a");
    assert_eq!(LoxType::Boolean(true).into_boolean().unwrap(), true);
    assert!(LoxType::Nil.into_nil().is_ok());
    let e = text("a").into_number().unwrap_err();
    assert_eq!(e.description(), "Failed to cast LoxType into f64");
    assert_eq!(e.line(), 0);
    assert_eq!(
        number(1.0).into_text().unwrap_err().description(),
        "Failed to cast LoxType into String"
    );
    assert_eq!(
        LoxType::Nil.into_boolean().unwrap_err().description(),
        "Failed to cast LoxType into bool"
    );
    assert_eq!(
        LoxType::Boolean(false).into_nil().unwrap_err().description(),
        "Failed to cast LoxType into ()"
    );
}

#[test]
fn clone_keeps_the_value() {
    assert!(text("abc").clone() == text("abc"));
    assert!(number(1.5).clone() == number(1.5));
    let token = Token {
        token: TokenType::String,
        lexeme: "\"a\"".to_string(),
        line: 3,
        literal: Some(text("a")),
    };
    let copy = token.clone();
    assert_eq!(copy.token, TokenType::String);
    assert_eq!(copy.lexeme, "\"a\"");
    assert_eq!(copy.line, 3);
    assert!(copy.literal == Some(text("a")));
}

#[test]
fn error_is_rendered_with_message_and_line() {
    let e = LoxError::new("Unexpected character".to_string(), 12);
    assert_eq!(e.to_string(), "Error: Unexpected character in line 12\n");
    assert_eq!(e.description(), "Unexpected character");
    assert_eq!(e.line(), 12);
    assert!(e.cause().is_none());
    assert_eq!(LoxError::new("x".to_string(), 0).to_string(), "Error: x in line 0\n");
    assert_eq!(LoxError::new("x".to_string(), -7).to_string(), "Error: x in line -7\n");
    assert_eq!(
        LoxError::new("x".to_string(), i32::MAX).to_string(),
        "Error: x in line 2147483647\n"
    );
    assert_eq!(
        LoxError::new("x".to_string(), i32::MIN).to_string(),
        "Error: x in line -2147483648\n"
    );
}

#[test]
fn error_keeps_its_cause() {
    let cause = std::io::Error::new(std::io::ErrorKind::NotFound, "gone");
    let e = LoxError::with_lower("Imported file couldn't be opened".to_string(), 4, cause);
    assert_eq!(e.description(), "Imported file couldn't be opened");
    assert_eq!(e.line(), 4);
    assert_eq!(e.cause().unwrap().kind(), std::io::ErrorKind::NotFound);
    let copy = e.restated();
    assert_eq!(copy.to_string(), "Error: Imported file couldn't be opened in line 4\n");
    assert!(copy.cause().is_none());
}

#[test]
fn interpreter_error_from_errors() {
    let one: InterpreterError = LoxError::new("a".to_string(), 1).into();
    assert!(matches!(one, InterpreterError::LoxError(_)));
    let many: InterpreterError = vec![LoxError::new("a".to_string(), 1)].into();
    assert!(matches!(many, InterpreterError::LoxErrors(_)));
}

#[test]
fn decimal_numerals() {
    let mut out = String::new();
    push_decimal(&mut out, 0);
    push_text(&mut out, " ");
    push_decimal(&mut out, 7);
    push_text(&mut out, " ");
    push_decimal(&mut out, 10);
    push_text(&mut out, " ");
    push_decimal(&mut out, 1234567890);
    push_text(&mut out, " ");
    push_decimal(&mut out, u64::MAX);
    push_text(&mut out, " ");
    push_signed_decimal(&mut out, -45);
    assert_eq!(out, "0 7 10 1234567890 18446744073709551615 -45");
}

#[test]
fn characters_of_a_text() {
    assert_eq!(chars_of("aé日"), vec!['a', 'é', '日']);
    assert_eq!(chars_of(""), Vec::<char>::new());
    let chars = chars_of("hello");
    assert_eq!(text_of(&chars, 1, 4), "ell");
    assert_eq!(text_of(&chars, 2, 2), "");
}

#[test]
fn environment_defines_locally() {
    let mut outer = Environment::new();
    outer.define("a", number(1.0));
    let mut inner = Environment::with_enclosing(Box::new(outer));
    inner.define("a", number(2.0));
    inner.define("b", number(3.0));
    assert!(inner.get("a") == Some(number(2.0)));
    assert!(inner.get("b") == Some(number(3.0)));
    let outer = inner.leave();
    assert!(outer.get("a") == Some(number(1.0)));
    assert!(outer.get("b").is_none());
    assert!(!outer.contains("b"));
}

#[test]
fn environment_define_overwrites() {
    let mut env = Environment::new();
    env.define("a", number(1.0));
    env.define("a", number(2.0));
    assert!(env.get("a") == Some(number(2.0)));
}

#[test]
fn environment_assign_changes_the_nearest_binding() {
    let mut outer = Environment::new();
    outer.define("a", number(1.0));
    outer.define("b", number(1.0));
    let mut inner = Environment::with_enclosing(Box::new(outer));
    inner.define("b", number(2.0));
    inner.assign("a", number(10.0));
    inner.assign("b", number(20.0));
    assert!(inner.get("a") == Some(number(10.0)));
    assert!(inner.get("b") == Some(number(20.0)));
    let outer = inner.into_enclosing().unwrap();
    assert!(outer.get("a") == Some(number(10.0)));
    assert!(outer.get("b") == Some(number(1.0)));
}

#[test]
fn environment_assign_to_an_unbound_name_does_nothing() {
    let mut env = Environment::with_enclosing(Box::new(Environment::new()));
    env.assign("a", number(1.0));
    assert!(!env.contains("a"));
    assert!(env.get("a").is_none());
}

#[test]
fn environment_contains_looks_outward() {
    let mut outer = Environment::new();
    outer.define("a", LoxType::Nil);
    let inner = Environment::with_enclosing(Box::new(outer));
    assert!(inner.contains("a"));
    assert!(!inner.contains("b"));
}

#[test]
fn environment_extend_merges_local_bindings() {
    let mut target = Environment::new();
    target.define("a", number(1.0));
    target.define("b", number(2.0));
    let mut outer = Environment::new();
    outer.define("d", number(0.0));
    let mut other = Environment::with_enclosing(Box::new(outer));
    other.define("b", number(20.0));
    other.define("c", number(30.0));
    target.extend(Box::new(other));
    assert!(target.get("a") == Some(number(1.0)));
    assert!(target.get("b") == Some(number(20.0)));
    assert!(target.get("c") == Some(number(30.0)));
    assert!(!target.contains("d"));
}

#[test]
fn environment_outermost_scope_stays() {
    let mut env = Environment::new();
    env.define("a", number(1.0));
    let env = env.leave();
    assert!(env.get("a") == Some(number(1.0)));
    assert!(env.into_enclosing().is_none());
}

#[test]
fn natives_have_names_and_arities() {
    assert_eq!(Clock.arity(), 0);
    assert_eq!(Print.arity(), 1);
    assert_eq!(Readline.arity(), 0);
    match Print.value() {
        LoxType::Callable(Callable::Native(n)) => {
            assert_eq!(n.name, "print");
            assert_eq!(n.arity, 1);
        }
        other => panic!("unexpected {:?}", other),
    }
    match native("x", 3) {
        LoxType::Callable(c) => assert_eq!(c.arity(), 3),
        other => panic!("unexpected {:?}", other),
    }
}

#[test]
fn function_value_has_the_arity_of_its_declaration() {
    let name = Token { token: TokenType::Identifier, lexeme: "f".to_string(), line: 0, literal: None };
    let a = Token { token: TokenType::Identifier, lexeme: "a".to_string(), line: 0, literal: None };
    let b = Token { token: TokenType::Identifier, lexeme: "b".to_string(), line: 0, literal: None };
    let declaration =
        Rc::new(Statement::Function(name, vec![a, b], Rc::new(Statement::Block(Vec::new()))));
    let f = LoxFun::new(declaration);
    assert_eq!(f.arity(), 2);
    assert_eq!(Callable::Function(f.clone()).arity(), 2);
    let odd = LoxFun::new(Rc::new(Statement::Block(Vec::new())));
    assert_eq!(odd.arity(), 0);
}

#[test]
fn written_values() {
    fn written(pieces: Vec<Piece>) -> String {
        let mut out = String::new();
        for p in pieces {
            match p {
                Piece::Text(s) => out.push_str(&s),
                Piece::Number(n) => out.push_str(&format!("{}", f64::from_bits(n.to_bits()))),
            }
        }
        out
    }
    assert_eq!(written(text("abc").pieces()), "abc");
    assert_eq!(written(number(1.5).pieces()), "1.5");
    assert_eq!(written(LoxType::Boolean(true).pieces()), "true");
    assert_eq!(written(LoxType::Boolean(false).pieces()), "false");
    assert_eq!(written(LoxType::Nil.pieces()), "nil");
    assert_eq!(written(Clock.value().pieces()), "");
}

#[test]
fn integers_become_the_nearest_double() {
    let mut samples: Vec<i64> = vec![
        0,
        1,
        -1,
        2,
        3,
        7,
        1_700_000_000,
        -1_700_000_000,
        i64::MAX,
        i64::MIN,
        i64::MAX - 1,
        i64::MIN + 1,
        123_456_789_012_345_678,
        -987_654_321_098_765_432,
    ];
    for k in 0..63 {
        let p = 1i64 << k;
        for d in [-3i64, -2, -1, 0, 1, 2, 3] {
            samples.push(p.wrapping_add(d));
            samples.push(p.wrapping_add(d).wrapping_neg());
            samples.push(p.wrapping_add(p / 2).wrapping_add(d));
            samples.push(p.wrapping_add(p / 4).wrapping_add(d));
        }
    }
    let mut x: u64 = 0x9e37_79b9_7f4a_7c15;
    for _ in 0..20000 {
        x ^= x << 13;
        x ^= x >> 7;
        x ^= x << 17;
        samples.push(x as i64);
        samples.push((x >> (x % 64)) as i64);
    }
    for s in samples {
        assert_eq!(Number::from_integer(s).to_bits(), (s as f64).to_bits(), "{}", s);
    }
}

#[test]
fn clock_gives_a_number_of_seconds() {
    assert!(matches!(Clock::at(0), LoxType::Number(_)));
    match Clock::at(1_431_648_000) {
        LoxType::Number(n) => assert_eq!(f64::from_bits(n.to_bits()), 1_431_648_000.0),
        other => panic!("unexpected {:?}", other),
    }
}
