use eldiro::env::Env;
use eldiro::error::Error;
use eldiro::val::Val;

#[test]
fn fresh_environment_binds_nothing() {
    let env = Env::new();
    assert_eq!(
        env.get_binding_value("a"),
        Err(Error::UnboundName("a".to_string()))
    );
    assert_eq!(
        Env::default().get_binding_value(""),
        Err(Error::UnboundName("".to_string()))
    );
}

#[test]
fn stored_value_is_found() {
    let mut env = Env::new();
    env.store_binding("a".to_string(), Val::Number(5));
    assert_eq!(env.get_binding_value("a"), Ok(Val::Number(5)));
}

#[test]
fn storing_again_overwrites() {
    let mut env = Env::new();
    env.store_binding("a".to_string(), Val::Number(5));
    env.store_binding("a".to_string(), Val::Number(-6));
    assert_eq!(env.get_binding_value("a"), Ok(Val::Number(-6)));
}

#[test]
fn names_do_not_interfere() {
    let mut env = Env::new();
    env.store_binding("a".to_string(), Val::Number(1));
    env.store_binding("ab".to_string(), Val::Number(2));
    env.store_binding("A".to_string(), Val::Number(3));
    assert_eq!(env.get_binding_value("a"), Ok(Val::Number(1)));
    assert_eq!(env.get_binding_value("ab"), Ok(Val::Number(2)));
    assert_eq!(env.get_binding_value("A"), Ok(Val::Number(3)));
    assert_eq!(
        env.get_binding_value("b"),
        Err(Error::UnboundName("b".to_string()))
    );
}

#[test]
fn unbound_name_message() {
    let env = Env::new();
    assert_eq!(
        env.get_binding_value("b").map_err(|e| e.message()),
        Err("Binding with name 'b' does not exist".to_string())
    );
}
