use eldiro::binding::Binding;
use eldiro::env::Env;
use eldiro::error::{Error, Expected};
use eldiro::expr::{Expr, Number, Op};
use eldiro::val::Val;

fn literal(text: &str) -> Error {
    Error::Malformed(Expected::Literal(text.to_string()))
}

#[test]
fn parse_binding() {
    let (binding, rest) = Binding::new("let a = 10 / 2").unwrap();
    assert_eq!(binding.name(), "a");
    assert_eq!(
        binding.val(),
        &Expr::Operation {
            lhs: Number(10),
            rhs: Number(2),
            op: Op::Div
        }
    );
    assert_eq!(rest, "");
}

#[test]
fn parse_binding_to_a_number() {
    let (binding, rest) = Binding::new("let answer1=42;").unwrap();
    assert_eq!(binding.name(), "answer1");
    assert_eq!(binding.val(), &Expr::Number(Number(42)));
    assert_eq!(rest, ";");
}

#[test]
fn parse_binding_with_wide_padding() {
    let (binding, rest) = Binding::new("let    x   =    1+  2 tail").unwrap();
    assert_eq!(binding.name(), "x");
    assert_eq!(
        binding.val(),
        &Expr::Operation {
            lhs: Number(1),
            rhs: Number(2),
            op: Op::Add
        }
    );
    assert_eq!(rest, " tail");
}

#[test]
fn equal_bindings_compare_equal() {
    assert_eq!(
        Binding::new("let a = 1").unwrap().0,
        Binding::new("let a=1").unwrap().0
    );
    assert_ne!(
        Binding::new("let a = 1").unwrap().0,
        Binding::new("let b = 1").unwrap().0
    );
}

#[test]
fn parse_binding_needs_let() {
    assert_eq!(Binding::new("a = 1").err(), Some(literal("let")));
    assert_eq!(Binding::new("").err(), Some(literal("let")));
    assert_eq!(Binding::new(" let a = 1").err(), Some(literal("let")));
}

#[test]
fn parse_binding_needs_space_after_let() {
    assert_eq!(
        Binding::new("leta = 1").err(),
        Some(Error::Malformed(Expected::Space))
    );
    assert_eq!(
        Binding::new("let").err(),
        Some(Error::Malformed(Expected::Space))
    );
    assert_eq!(
        Binding::new("let\ta = 1").err(),
        Some(Error::Malformed(Expected::Space))
    );
}

#[test]
fn parse_binding_needs_a_name() {
    assert_eq!(
        Binding::new("let 1a = 1").err(),
        Some(Error::Malformed(Expected::Identifier))
    );
    assert_eq!(
        Binding::new("let = 1").err(),
        Some(Error::Malformed(Expected::Identifier))
    );
    assert_eq!(
        Binding::new("let ").err(),
        Some(Error::Malformed(Expected::Identifier))
    );
}

#[test]
fn parse_binding_needs_equals() {
    assert_eq!(Binding::new("let a 1").err(), Some(literal("=")));
    assert_eq!(Binding::new("let a").err(), Some(literal("=")));
    assert_eq!(Binding::new("let a_b = 1").err(), Some(literal("=")));
}

#[test]
fn parse_binding_needs_an_expression() {
    assert_eq!(
        Binding::new("let a = ").err(),
        Some(Error::Malformed(Expected::Digits))
    );
    assert_eq!(
        Binding::new("let a = b").err(),
        Some(Error::Malformed(Expected::Digits))
    );
    assert_eq!(
        Binding::new("let a = 2147483648").err(),
        Some(Error::Malformed(Expected::NumberInRange))
    );
}

#[test]
fn eval_binding_stores_the_value() {
    let (binding, _) = Binding::new("let a = 10 / 2").unwrap();
    let mut env = Env::default();
    assert_eq!(binding.eval(&mut env), Ok(()));
    assert_eq!(env.get_binding_value("a"), Ok(Val::Number(5)));
    assert_eq!(
        env.get_binding_value("b"),
        Err(Error::UnboundName("b".to_string()))
    );
}

#[test]
fn eval_binding_overwrites() {
    let mut env = Env::new();
    assert_eq!(Binding::new("let a = 1").unwrap().0.eval(&mut env), Ok(()));
    assert_eq!(Binding::new("let b = 2").unwrap().0.eval(&mut env), Ok(()));
    assert_eq!(Binding::new("let a = 3 * 4").unwrap().0.eval(&mut env), Ok(()));
    assert_eq!(env.get_binding_value("a"), Ok(Val::Number(12)));
    assert_eq!(env.get_binding_value("b"), Ok(Val::Number(2)));
}

#[test]
fn eval_binding_that_divides_by_zero_changes_nothing() {
    let mut env = Env::new();
    assert_eq!(Binding::new("let a = 1").unwrap().0.eval(&mut env), Ok(()));
    assert_eq!(
        Binding::new("let a = 4 / 0").unwrap().0.eval(&mut env),
        Err(Error::DivisionByZero)
    );
    assert_eq!(
        Binding::new("let c = 4 / 0").unwrap().0.eval(&mut env),
        Err(Error::DivisionByZero)
    );
    assert_eq!(env.get_binding_value("a"), Ok(Val::Number(1)));
    assert_eq!(
        env.get_binding_value("c"),
        Err(Error::UnboundName("c".to_string()))
    );
}
