use sage::assembly::{check_scopes, AssemblyProgram, CoreOp, Location};
use sage::env::Env;
use sage::error::Error;
use sage::lir::{Expr, Procedure, Type};

#[test]
fn balanced_scopes_pass() {
    let ops = vec![
        CoreOp::Fn(0),
        CoreOp::If(Location::Address(3)),
        CoreOp::Else,
        CoreOp::End,
        CoreOp::While(Location::Address(4)),
        CoreOp::End,
        CoreOp::Return,
        CoreOp::End,
    ];
    assert_eq!(check_scopes(&ops), Ok(()));
    assert_eq!(check_scopes(&vec![]), Ok(()));
}

#[test]
fn stray_end_is_unmatched_at_its_index() {
    let ops = vec![CoreOp::If(Location::Address(3)), CoreOp::End, CoreOp::End, CoreOp::Fn(1)];
    assert_eq!(check_scopes(&ops), Err(Error::Unmatched(Box::new(CoreOp::End), 2)));
}

#[test]
fn unclosed_scope_is_unmatched_at_the_end() {
    let ops = vec![CoreOp::Fn(0), CoreOp::While(Location::Address(3)), CoreOp::End];
    assert_eq!(check_scopes(&ops), Err(Error::Unmatched(Box::new(CoreOp::Fn(0)), 3)));
}

#[test]
fn procedure_is_compiled_on_first_push_only() {
    let mut env = Env::new();
    let p = Procedure::new(Some("f".to_string()), vec![], Type::Int, Expr::none()).with_label(7);
    env.define_proc("f", p);
    let mut out = AssemblyProgram::new(false);
    assert_eq!(env.push_proc("f", &mut out), Ok(true));
    assert_eq!(env.push_proc("f", &mut out), Ok(false));
    assert!(env.get_proc("f").unwrap().compiled);
    assert_eq!(out.ops.len(), 2);
    assert_eq!(
        env.push_proc("g", &mut out),
        Err(Error::SymbolNotDefined("g".to_string()))
    );
    assert_eq!(out.ops.len(), 2);
}

#[test]
fn compiled_flag_does_not_leak_to_parent_scope() {
    let mut parent = Env::new();
    parent.define_proc("f", Procedure::new(None, vec![], Type::Void, Expr::none()));
    let mut child = parent.new_scope();
    let mut out = AssemblyProgram::new(true);
    assert_eq!(child.push_proc("f", &mut out), Ok(true));
    assert!(!parent.get_proc("f").unwrap().compiled);
    assert!(child.get_proc("f").unwrap().compiled);
}
