use sage::assembler::Assembler;
use sage::assembly::{AssemblyProgram, CoreOp, Location, StandardOp};
use sage::error::Error;
use sage::vm;

fn program(ops: Vec<CoreOp>) -> AssemblyProgram {
    AssemblyProgram { ops: ops.into_iter().map(StandardOp::CoreOp).collect(), standard: false }
}

fn a() -> Location {
    Location::Address(3)
}

#[test]
fn prelude_sets_up_the_frame_pointer_stack() {
    let flat = program(vec![]).assemble(4).unwrap();
    assert_eq!(
        flat.0[..6].to_vec(),
        vec![
            vm::CoreOp::Move(8),
            vm::CoreOp::Where,
            vm::CoreOp::Move(-8),
            vm::CoreOp::Move(9),
            vm::CoreOp::Store(1),
            vm::CoreOp::Move(-9),
        ]
    );
    assert!(flat.0.contains(&vm::CoreOp::Move(4)));
}

#[test]
fn set_value_stores_through_the_location() {
    let mut target = Assembler::new();
    let op = StandardOp::CoreOp(CoreOp::SetValue(Location::Indirect(Box::new(Location::Address(0))), 7));
    assert_eq!(op.assemble(0, &mut target), Ok(()));
    assert_eq!(
        target.code,
        vec![
            vm::CoreOp::SetRegister(vec![7]),
            vm::CoreOp::Move(0),
            vm::CoreOp::Deref,
            vm::CoreOp::Store(1),
            vm::CoreOp::Refer,
            vm::CoreOp::Move(0),
        ]
    );
}

#[test]
fn standard_ops_are_unsupported_on_the_core_machine() {
    let p = AssemblyProgram { ops: vec![StandardOp::Sin(a())], standard: true };
    assert_eq!(p.assemble(4), Err(Error::UnsupportedInstruction(StandardOp::Sin(a()))));
    let g = program(vec![CoreOp::Inc(Location::Global("x".to_string()))]);
    assert_eq!(
        g.assemble(4),
        Err(Error::UnsupportedInstruction(StandardOp::CoreOp(CoreOp::Inc(Location::Global("x".to_string())))))
    );
}

#[test]
fn unbalanced_scopes_are_unmatched() {
    assert_eq!(program(vec![CoreOp::End]).assemble(4), Err(Error::Unmatched(Box::new(CoreOp::End), 0)));
    assert_eq!(
        program(vec![CoreOp::Fn(1), CoreOp::If(a()), CoreOp::End]).assemble(4),
        Err(Error::Unmatched(Box::new(CoreOp::Fn(1)), 3))
    );
    assert!(program(vec![CoreOp::While(a()), CoreOp::Dec(a()), CoreOp::End]).assemble(4).is_ok());
}

#[test]
fn labels_must_be_defined_before_use() {
    assert_eq!(program(vec![CoreOp::PushLabel(9)]).assemble(4), Err(Error::UndefinedLabel(9)));
}

#[test]
fn sibling_functions_get_distinct_ids_and_main_calls_them() {
    let p = program(vec![
        CoreOp::Fn(11),
        CoreOp::PushLabel(11),
        CoreOp::Call(Location::Offset(Box::new(Location::Indirect(Box::new(Location::Address(0)))), 0)),
        CoreOp::Return,
        CoreOp::End,
        CoreOp::Fn(22),
        CoreOp::Return,
        CoreOp::End,
        CoreOp::PushLabel(22),
        CoreOp::PushLabel(11),
    ]);
    let flat = p.assemble(4).unwrap();
    let functions = flat.get_functions();
    assert_eq!(functions.len(), 2);
    let main = flat.get_main();
    assert!(main.contains(&vm::CoreOp::SetRegister(vec![1])));
    assert!(main.contains(&vm::CoreOp::SetRegister(vec![0])));
    assert_eq!(flat.0.iter().filter(|op| **op == vm::CoreOp::Function).count(), 2);
}

#[test]
fn loops_test_their_location_again_before_end() {
    let flat = program(vec![CoreOp::While(a()), CoreOp::End]).assemble(4).unwrap();
    let n = flat.0.len();
    assert_eq!(
        flat.0[n - 4..].to_vec(),
        vec![vm::CoreOp::Move(3), vm::CoreOp::Load(1), vm::CoreOp::Move(-3), vm::CoreOp::End]
    );
}
