use sage::arithmetic::Arithmetic;
use sage::assembly::{AssemblyProgram, CoreOp, Location, StandardOp};
use sage::env::Env;
use sage::error::Error;
use sage::lir::{ConstExpr, Expr, SourceCodeLocation, Type};

fn top() -> Location {
    Location::Indirect(Box::new(Location::Address(0)))
}

fn below() -> Location {
    Location::Offset(Box::new(top()), -1)
}

#[test]
fn constant_folding_follows_precedence_result() {
    let env = Env::new();
    let product = Arithmetic::Multiply.eval(&ConstExpr::Int(3), &ConstExpr::Int(4), &env).unwrap();
    let sum = Arithmetic::Add.eval(&ConstExpr::Int(2), &product, &env).unwrap();
    assert_eq!(sum, ConstExpr::Int(14));
}

#[test]
fn integer_folding_truncates_and_checks() {
    let env = Env::new();
    assert_eq!(Arithmetic::Divide.fold_ints(-7, 2), Some(-3));
    assert_eq!(Arithmetic::Remainder.fold_ints(-7, 2), Some(-1));
    assert_eq!(Arithmetic::Remainder.fold_ints(i64::MIN, -1), Some(0));
    assert_eq!(Arithmetic::Divide.fold_ints(i64::MIN, -1), None);
    assert_eq!(Arithmetic::Divide.fold_ints(1, 0), None);
    assert_eq!(Arithmetic::Power.fold_ints(2, 10), Some(1024));
    assert_eq!(Arithmetic::Power.fold_ints(2, 63), None);
    assert_eq!(Arithmetic::Power.fold_ints(-2, 63), Some(i64::MIN));
    assert_eq!(Arithmetic::Add.fold_ints(i64::MAX, 1), None);
    assert_eq!(
        Arithmetic::Divide.eval(&ConstExpr::Int(5), &ConstExpr::Int(0), &env),
        Err(Error::InvalidConstant(Arithmetic::Divide))
    );
}

#[test]
fn named_constants_fold() {
    let mut env = Env::new();
    env.define_const("N", ConstExpr::Int(6));
    assert_eq!(
        Arithmetic::Subtract.eval(&ConstExpr::Symbol("N".to_string()), &ConstExpr::Int(1), &env),
        Ok(ConstExpr::Int(5))
    );
}

#[test]
fn arrays_repeat_when_multiplied() {
    let env = Env::new();
    let arr = ConstExpr::Array(vec![ConstExpr::Int(1), ConstExpr::Int(2)]);
    assert_eq!(
        Arithmetic::Multiply.eval(&arr, &ConstExpr::Int(3), &env),
        Ok(ConstExpr::Array(vec![
            ConstExpr::Int(1),
            ConstExpr::Int(2),
            ConstExpr::Int(1),
            ConstExpr::Int(2),
            ConstExpr::Int(1),
            ConstExpr::Int(2),
        ]))
    );
    assert_eq!(
        Arithmetic::Add.eval(&arr, &ConstExpr::Int(3), &env),
        Err(Error::InvalidBinaryOp(Arithmetic::Add))
    );
}

#[test]
fn operand_types_decide_applicability() {
    let env = Env::new();
    assert!(Arithmetic::Add.can_apply(&Type::Int, &Type::Float, &env));
    assert!(Arithmetic::Add.can_apply(&Type::Cell, &Type::Int, &env));
    assert!(!Arithmetic::Add.can_apply(&Type::Bool, &Type::Int, &env));
    let arr = Type::Array(Box::new(Type::Int), Box::new(ConstExpr::Int(2)));
    assert!(Arithmetic::Multiply.can_apply(&arr, &Type::Int, &env));
    assert!(!Arithmetic::Add.can_apply(&arr, &Type::Int, &env));
    let m = Type::Unit("m".to_string(), Box::new(Type::Int));
    let s = Type::Unit("s".to_string(), Box::new(Type::Int));
    assert!(Arithmetic::Add.can_apply(&m, &Type::Unit("m".to_string(), Box::new(Type::Int)), &env));
    assert!(!Arithmetic::Add.can_apply(&m, &s, &env));
}

#[test]
fn result_types() {
    let env = Env::new();
    let three = Expr::ConstExpr(ConstExpr::Int(3));
    assert_eq!(Arithmetic::Add.return_type(Type::Int, Type::Int, &three, &env), Ok(Type::Int));
    assert_eq!(Arithmetic::Add.return_type(Type::Int, Type::Float, &three, &env), Ok(Type::Float));
    assert_eq!(Arithmetic::Add.return_type(Type::Float, Type::Cell, &three, &env), Ok(Type::Cell));
    let arr = Type::Array(Box::new(Type::Char), Box::new(ConstExpr::Int(2)));
    let annotated = Expr::Annotated(
        Box::new(three),
        SourceCodeLocation { line: 1, column: 2, filename: None },
    );
    assert_eq!(
        Arithmetic::Multiply.return_type(arr, Type::Int, &annotated, &env),
        Ok(Type::Array(Box::new(Type::Char), Box::new(ConstExpr::Int(6))))
    );
    let arr = Type::Array(Box::new(Type::Char), Box::new(ConstExpr::Int(2)));
    let zero = Expr::ConstExpr(ConstExpr::Int(0));
    assert_eq!(
        Arithmetic::Multiply.return_type(arr, Type::Int, &zero, &env),
        Err(Error::InvalidBinaryOp(Arithmetic::Multiply))
    );
    assert_eq!(
        Arithmetic::Add.return_type(Type::Bool, Type::Int, &zero, &env),
        Err(Error::InvalidBinaryOp(Arithmetic::Add))
    );
}

#[test]
fn integer_code_uses_core_instructions() {
    let env = Env::new();
    let mut out = AssemblyProgram::new(false);
    assert_eq!(Arithmetic::Add.compile_types(&Type::Int, &Type::Int, &env, &mut out), Ok(()));
    assert_eq!(
        out.ops,
        vec![
            StandardOp::CoreOp(CoreOp::Add { src: top(), dst: below() }),
            StandardOp::CoreOp(CoreOp::Pop(None, 1)),
        ]
    );
}

#[test]
fn float_code_needs_standard_target() {
    let env = Env::new();
    let mut core = AssemblyProgram::new(false);
    assert_eq!(
        Arithmetic::Add.compile_types(&Type::Int, &Type::Float, &env, &mut core),
        Err(Error::UnsupportedInstruction(StandardOp::ToFloat(below())))
    );
    assert!(core.ops.is_empty());
    let mut std = AssemblyProgram::new(true);
    assert_eq!(Arithmetic::Add.compile_types(&Type::Int, &Type::Float, &env, &mut std), Ok(()));
    assert_eq!(
        std.ops,
        vec![
            StandardOp::ToFloat(below()),
            StandardOp::Add { src: top(), dst: below() },
            StandardOp::CoreOp(CoreOp::Pop(None, 1)),
        ]
    );
}

#[test]
fn power_code_loops_on_the_exponent() {
    let env = Env::new();
    let mut out = AssemblyProgram::new(false);
    assert_eq!(Arithmetic::Power.compile_types(&Type::Int, &Type::Int, &env, &mut out), Ok(()));
    assert_eq!(out.ops.len(), 7);
    assert_eq!(out.ops[2], StandardOp::CoreOp(CoreOp::While(top())));
    assert_eq!(out.ops[6], StandardOp::CoreOp(CoreOp::Pop(None, 1)));
}

#[test]
fn array_repetition_code_pushes_copies() {
    let env = Env::new();
    let arr = Type::Array(Box::new(Type::Int), Box::new(ConstExpr::Int(3)));
    let mut out = AssemblyProgram::new(false);
    assert_eq!(Arithmetic::Multiply.compile_types(&arr, &Type::Int, &env, &mut out), Ok(()));
    assert_eq!(out.ops.len(), 7);
    assert_eq!(
        out.ops[1],
        StandardOp::CoreOp(CoreOp::GetAddress {
            addr: Location::Offset(Box::new(top()), -2),
            dst: Location::Address(3),
        })
    );
    assert_eq!(
        out.ops[4],
        StandardOp::CoreOp(CoreOp::Push(Location::Indirect(Box::new(Location::Address(3))), 3))
    );
    let mut bad = AssemblyProgram::new(false);
    assert_eq!(
        Arithmetic::Add.compile_types(&Type::Bool, &Type::Int, &env, &mut bad),
        Err(Error::InvalidBinaryOpTypes(Arithmetic::Add))
    );
}

#[test]
fn arrays_repeat_only_a_positive_number_of_times() {
    let env = Env::new();
    let arr = ConstExpr::Array(vec![ConstExpr::Int(1)]);
    assert_eq!(
        Arithmetic::Multiply.eval(&arr, &ConstExpr::Int(-2), &env),
        Err(Error::InvalidBinaryOp(Arithmetic::Multiply))
    );
    assert_eq!(
        Arithmetic::Multiply.eval(&arr, &ConstExpr::Int(0), &env),
        Err(Error::InvalidBinaryOp(Arithmetic::Multiply))
    );
    assert_eq!(
        Arithmetic::Multiply.eval(&ConstExpr::Array(vec![]), &ConstExpr::Int(5), &env),
        Ok(ConstExpr::Array(vec![]))
    );
}

#[test]
fn arrays_of_aggregates_repeat_too() {
    let env = Env::new();
    let pair = || ConstExpr::Tuple(vec![ConstExpr::Int(1), ConstExpr::Char('a')]);
    let row = || ConstExpr::Array(vec![ConstExpr::Bool(true), ConstExpr::Symbol("k".to_string())]);
    let arr = ConstExpr::Array(vec![pair(), row()]);
    assert_eq!(
        Arithmetic::Multiply.eval(&arr, &ConstExpr::Int(2), &env),
        Ok(ConstExpr::Array(vec![pair(), row(), pair(), row()]))
    );
    let typed = ConstExpr::Array(vec![ConstExpr::Of(Type::Enum(vec!["A".to_string()]), "A".to_string())]);
    assert_eq!(
        Arithmetic::Multiply.eval(&typed, &ConstExpr::Int(2), &env),
        Ok(ConstExpr::Array(vec![
            ConstExpr::Of(Type::Enum(vec!["A".to_string()]), "A".to_string()),
            ConstExpr::Of(Type::Enum(vec!["A".to_string()]), "A".to_string()),
        ]))
    );
}

#[test]
fn powers_of_small_bases_are_immediate() {
    assert_eq!(Arithmetic::Power.fold_ints(1, 4_000_000_000), Some(1));
    assert_eq!(Arithmetic::Power.fold_ints(0, 4_000_000_000), Some(0));
    assert_eq!(Arithmetic::Power.fold_ints(0, 0), Some(1));
    assert_eq!(Arithmetic::Power.fold_ints(-1, 4_000_000_001), Some(-1));
    assert_eq!(Arithmetic::Power.fold_ints(-1, 4_000_000_000), Some(1));
    assert_eq!(Arithmetic::Power.fold_ints(3, 4), Some(81));
}

#[test]
fn type_errors_carry_the_operand_place() {
    let env = Env::new();
    let loc = SourceCodeLocation { line: 2, column: 5, filename: Some("a.sg".to_string()) };
    let rhs = Expr::Annotated(Box::new(Expr::ConstExpr(ConstExpr::Int(0))), loc.clone());
    let arr = Type::Array(Box::new(Type::Int), Box::new(ConstExpr::Int(2)));
    assert_eq!(
        Arithmetic::Multiply.return_type(arr, Type::Int, &rhs, &env),
        Err(Error::Annotated(Box::new(Error::InvalidBinaryOp(Arithmetic::Multiply)), loc))
    );
}
