use sage::env::Env;
use sage::error::Error;
use sage::lir::{ConstExpr, Mutability, Type};

#[test]
fn child_scope_definitions_do_not_reach_parent() {
    let mut parent = Env::new();
    parent.define_type("Pair", Type::Tuple(vec![Type::Int, Type::Int]));
    parent.define_const("N", ConstExpr::Int(3));
    let mut child = parent.new_scope();
    child.define_type("Pair", Type::Int);
    child.define_type("Other", Type::Bool);
    child.define_const("M", ConstExpr::Int(4));
    assert_eq!(parent.get_type("Pair"), Some(&Type::Tuple(vec![Type::Int, Type::Int])));
    assert_eq!(parent.get_type("Other"), None);
    assert_eq!(parent.get_const("M"), None);
    assert_eq!(child.get_type("Pair"), Some(&Type::Int));
    assert_eq!(child.get_const("N"), Some(&ConstExpr::Int(3)));
}

#[test]
fn new_scope_drops_variables() {
    let mut env = Env::new();
    assert_eq!(env.define_var("x", Type::Int), Ok(1));
    let scope = env.new_scope();
    assert!(scope.get_var("x").is_none());
    assert_eq!(env.get_var("x"), Some(&(Type::Int, 1)));
}

#[test]
fn variables_take_consecutive_frame_offsets() {
    let mut env = Env::new();
    assert_eq!(env.define_var("a", Type::Int), Ok(1));
    assert_eq!(env.define_var("b", Type::Tuple(vec![Type::Int, Type::Char, Type::Bool])), Ok(2));
    assert_eq!(env.define_var("c", Type::Cell), Ok(5));
    assert_eq!(env.get_var("b"), Some(&(Type::Tuple(vec![Type::Int, Type::Char, Type::Bool]), 2)));
}

#[test]
fn undefined_variable_type_is_an_error() {
    let mut env = Env::new();
    assert_eq!(
        env.define_var("a", Type::Symbol("Missing".to_string())),
        Err(Error::SymbolNotDefined("Missing".to_string()))
    );
    assert!(env.get_var("a").is_none());
}

#[test]
fn arguments_end_at_the_frame_pointer() {
    let mut env = Env::new();
    let args = vec![
        ("a".to_string(), Type::Int),
        ("b".to_string(), Type::Tuple(vec![Type::Int, Type::Int])),
        ("c".to_string(), Type::Bool),
    ];
    assert_eq!(env.define_args(args), Ok(4));
    assert_eq!(env.get_args_size(), 4);
    assert_eq!(env.get_var("c"), Some(&(Type::Bool, 0)));
    assert_eq!(env.get_var("b"), Some(&(Type::Tuple(vec![Type::Int, Type::Int]), -2)));
    assert_eq!(env.get_var("a"), Some(&(Type::Int, -3)));
    assert_eq!(env.define_var("x", Type::Int), Ok(1));
}

#[test]
fn procedures_are_found_by_name() {
    let mut env = Env::new();
    assert!(!env.has_proc("f"));
    let p = sage::lir::Procedure::new(
        Some("f".to_string()),
        vec![("n".to_string(), Mutability::Immutable, Type::Int)],
        Type::Int,
        sage::lir::Expr::none(),
    );
    env.define_proc("f", p);
    assert!(env.has_proc("f"));
    assert_eq!(env.get_proc("f").unwrap().args.len(), 1);
    assert!(!env.get_proc("f").unwrap().compiled);
}
