use sage::vm::{CoreOp, CoreProgram};

fn count(code: &[CoreOp], op: &CoreOp) -> usize {
    code.iter().filter(|x| *x == op).count()
}

#[test]
fn flatten_moves_functions_before_main() {
    let code = vec![
        CoreOp::SetRegister(vec![1]),
        CoreOp::Function,
        CoreOp::Add,
        CoreOp::Return,
        CoreOp::End,
        CoreOp::Call,
    ];
    let flat = CoreProgram(code).flatten();
    assert_eq!(
        flat.0,
        vec![
            CoreOp::Function,
            CoreOp::Add,
            CoreOp::Return,
            CoreOp::End,
            CoreOp::SetRegister(vec![1]),
            CoreOp::Call,
        ]
    );
}

#[test]
fn flatten_without_functions_is_identity() {
    let code = vec![
        CoreOp::SetRegister(vec![3]),
        CoreOp::While,
        CoreOp::Sub,
        CoreOp::End,
        CoreOp::If,
        CoreOp::Else,
        CoreOp::End,
    ];
    let flat = CoreProgram(code.clone()).flatten();
    assert_eq!(flat.0, code);
}

#[test]
fn nested_functions_are_unnested_in_definition_order() {
    let code = vec![
        CoreOp::Function,
        CoreOp::Function,
        CoreOp::Mul,
        CoreOp::End,
        CoreOp::Div,
        CoreOp::End,
        CoreOp::Where,
    ];
    let (main, functions) = CoreProgram(code).get_main_and_functions();
    assert_eq!(main, vec![CoreOp::Where]);
    assert_eq!(functions.len(), 2);
    assert_eq!(functions[&0], vec![CoreOp::Function, CoreOp::Div, CoreOp::End]);
    assert_eq!(functions[&1], vec![CoreOp::Function, CoreOp::Mul, CoreOp::End]);
}

#[test]
fn two_sibling_recursive_functions_get_distinct_ids() {
    // Each function calls itself by loading its own id and calling.
    let code = vec![
        CoreOp::Function,
        CoreOp::SetRegister(vec![0]),
        CoreOp::Call,
        CoreOp::Return,
        CoreOp::End,
        CoreOp::Function,
        CoreOp::SetRegister(vec![1]),
        CoreOp::Call,
        CoreOp::Return,
        CoreOp::End,
        CoreOp::SetRegister(vec![0]),
        CoreOp::Call,
        CoreOp::SetRegister(vec![1]),
        CoreOp::Call,
    ];
    let program = CoreProgram(code);
    let functions = program.get_functions();
    assert_eq!(functions.len(), 2);
    assert!(functions.contains_key(&0));
    assert!(functions.contains_key(&1));
    assert_ne!(functions[&0], functions[&1]);
    let main = program.get_main();
    assert_eq!(count(&main, &CoreOp::Call), 2);
    assert_eq!(main[0], CoreOp::SetRegister(vec![0]));
    assert_eq!(main[2], CoreOp::SetRegister(vec![1]));
    let flat = program.flatten();
    assert_eq!(flat.0.len(), 14);
    assert_eq!(count(&flat.0, &CoreOp::Function), 2);
}

#[test]
fn main_keeps_top_level_scopes() {
    let code = vec![CoreOp::If, CoreOp::Function, CoreOp::End, CoreOp::Else, CoreOp::End];
    let program = CoreProgram(code);
    assert_eq!(program.get_main(), vec![CoreOp::If, CoreOp::Else, CoreOp::End]);
    let functions = program.get_functions();
    assert_eq!(functions[&0], vec![CoreOp::Function, CoreOp::End]);
}
