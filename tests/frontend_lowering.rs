use sage::frontend::{Declaration, Program, Statement};
use sage::lir::{self, BinaryOp, ConstExpr, Expr, Mutability, SourceCodeLocation, Type};
use sage::arithmetic::Arithmetic;

fn num(n: i64) -> Expr {
    Expr::ConstExpr(ConstExpr::Int(n))
}

fn sym(x: &str) -> Expr {
    Expr::ConstExpr(ConstExpr::Symbol(x.to_string()))
}

#[test]
fn empty_program_is_none() {
    assert_eq!(Program(vec![]).to_expr(), Expr::none());
}

#[test]
fn expression_statements_become_a_sequence() {
    let program = Program(vec![
        Declaration::Statement(Statement::Expr(num(1))),
        Declaration::Statement(Statement::Expr(num(2))),
        Declaration::Statement(Statement::Expr(num(3))),
    ]);
    assert_eq!(program.to_expr(), Expr::Many(vec![num(1), num(2), num(3)]));
}

#[test]
fn let_scopes_over_the_rest() {
    let stmt = Statement::Let(vec![("x".to_string(), Mutability::Immutable, Some(Type::Int), num(14))]);
    let lowered = stmt.to_expr(Some(sym("x")));
    assert_eq!(
        lowered,
        Expr::Declare(
            Box::new(lir::Declaration::Many(vec![lir::Declaration::Var(
                "x".to_string(),
                Mutability::Immutable,
                Some(Type::Int),
                num(14)
            )])),
            Box::new(sym("x"))
        )
    );
}

#[test]
fn assignment_writes_through_a_mutable_reference() {
    let plain = Statement::Assign(sym("x"), None, num(1)).to_expr(None);
    assert_eq!(
        plain,
        Expr::DerefMut(
            Box::new(Expr::Refer(Mutability::Mutable, Box::new(sym("x")))),
            Box::new(num(1))
        )
    );
    let op = BinaryOp::Arithmetic(Arithmetic::Add);
    let compound = Statement::Assign(sym("i"), Some(op), num(1)).to_expr(None);
    assert_eq!(
        compound,
        Expr::AssignOp(op, Box::new(Expr::Refer(Mutability::Mutable, Box::new(sym("i")))), Box::new(num(1)))
    );
}

#[test]
fn for_loop_becomes_init_then_while() {
    let init = Statement::Let(vec![("i".to_string(), Mutability::Mutable, None, num(0))]);
    let step = Statement::Assign(sym("i"), Some(BinaryOp::Arithmetic(Arithmetic::Add)), num(1));
    let body = Statement::Expr(sym("body"));
    let stmt = Statement::For(Box::new(init), sym("cond"), Box::new(step), Box::new(body));
    match stmt.to_expr(None) {
        Expr::Declare(decl, rest) => {
            assert!(matches!(*decl, lir::Declaration::Many(_)));
            match *rest {
                Expr::While(cond, turn) => {
                    assert_eq!(*cond, sym("cond"));
                    match *turn {
                        Expr::Many(items) => {
                            assert_eq!(items.len(), 2);
                            assert_eq!(items[0], sym("body"));
                        }
                        other => panic!("unexpected loop body {:?}", other),
                    }
                }
                other => panic!("unexpected rest {:?}", other),
            }
        }
        other => panic!("unexpected lowering {:?}", other),
    }
}

#[test]
fn if_without_else_has_none_branch() {
    let stmt = Statement::If(sym("c"), Box::new(Statement::Expr(num(1))), None);
    assert_eq!(
        stmt.to_expr(None),
        Expr::If(Box::new(sym("c")), Box::new(num(1)), Box::new(Expr::none()))
    );
}

#[test]
fn annotation_wraps_the_lowering() {
    let loc = SourceCodeLocation { line: 3, column: 4, filename: Some("main.sg".to_string()) };
    let stmt = Statement::Expr(num(5)).with_loc(loc.clone());
    let again = stmt.with_loc(SourceCodeLocation { line: 9, column: 9, filename: None });
    assert_eq!(again.to_expr(None), Expr::Annotated(Box::new(num(5)), loc));
}

#[test]
fn enums_with_payloads_become_tagged_unions() {
    let decl = Declaration::Enum(
        "Option".to_string(),
        vec![("Some".to_string(), Some(Type::Int)), ("None".to_string(), None)],
    );
    assert_eq!(
        decl.to_expr(None),
        Expr::Declare(
            Box::new(lir::Declaration::Type(
                "Option".to_string(),
                Type::EnumUnion(vec![("Some".to_string(), Type::Int), ("None".to_string(), Type::Void)])
            )),
            Box::new(Expr::none())
        )
    );
    let plain = Declaration::Enum("Dir".to_string(), vec![("Up".to_string(), None)]);
    assert_eq!(
        plain.to_expr(None),
        Expr::Declare(
            Box::new(lir::Declaration::Type("Dir".to_string(), Type::Enum(vec!["Up".to_string()]))),
            Box::new(Expr::none())
        )
    );
}

#[test]
fn compile_time_declarations_are_visible_to_earlier_statements() {
    let program = Program(vec![
        Declaration::Statement(Statement::Expr(sym("f"))),
        Declaration::Const(vec![("K".to_string(), ConstExpr::Int(1))]),
    ]);
    match program.to_expr() {
        Expr::Declare(decl, rest) => {
            assert!(decl.is_compile_time());
            assert_eq!(*rest, Expr::Many(vec![sym("f"), Expr::none()]));
        }
        other => panic!("unexpected lowering {:?}", other),
    }
}

#[test]
fn procedures_default_to_returning_none() {
    let p = Declaration::proc_to_expr("f".to_string(), vec![], None, Statement::Expr(num(1)));
    assert_eq!(*p.ret, Type::Void);
    assert_eq!(*p.body, num(1));
    assert!(!p.compiled);
    let decl = Declaration::Proc("g".to_string(), vec![], Some(Type::Int), Box::new(Statement::Return(num(2))));
    match decl.to_expr(None) {
        Expr::Declare(d, _) => match *d {
            lir::Declaration::Proc(name, proc) => {
                assert_eq!(name, "g");
                assert_eq!(*proc.ret, Type::Int);
                assert_eq!(*proc.body, Expr::Return(Box::new(num(2))));
            }
            other => panic!("unexpected declaration {:?}", other),
        },
        other => panic!("unexpected lowering {:?}", other),
    }
}

#[test]
fn surface_declarations_know_if_they_are_compile_time() {
    let c = Declaration::Const(vec![("K".to_string(), ConstExpr::Int(1))]);
    assert!(c.is_compile_time());
    let s = Declaration::Statement(Statement::Expr(num(1)));
    assert!(!s.is_compile_time());
    let many = Declaration::Many(vec![
        Declaration::Type(vec![("T".to_string(), Type::Int)]),
        Declaration::Statement(Statement::Expr(num(2))),
    ]);
    assert!(!many.is_compile_time());
    assert!(Declaration::Many(vec![]).is_compile_time());
}

#[test]
fn block_before_a_sequence_goes_in_front() {
    let block = Statement::Block(vec![
        Declaration::Statement(Statement::Expr(num(1))),
        Declaration::Statement(Statement::Expr(num(2))),
    ]);
    let lowered = block.to_expr(Some(Expr::Many(vec![num(3)])));
    assert_eq!(lowered, Expr::Many(vec![Expr::Many(vec![num(1), num(2)]), num(3)]));
}

#[test]
fn annotations_after_a_declaration_wrap_the_whole() {
    let loc = SourceCodeLocation { line: 7, column: 1, filename: None };
    let rest = Expr::Annotated(Box::new(num(9)), loc.clone());
    let decl = Declaration::Type(vec![("T".to_string(), Type::Int)]);
    match decl.to_expr(Some(rest)) {
        Expr::Annotated(inner, l) => {
            assert_eq!(l, loc);
            match *inner {
                Expr::Declare(_, body) => assert_eq!(*body, num(9)),
                other => panic!("unexpected lowering {:?}", other),
            }
        }
        other => panic!("unexpected lowering {:?}", other),
    }
}
