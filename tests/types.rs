use sage::env::Env;
use sage::error::Error;
use sage::lir::{ConstExpr, Mutability, Type};

fn s(x: &str) -> String {
    x.to_string()
}

#[test]
fn struct_size_is_sum_of_fields() {
    let env = Env::new();
    let t = Type::Struct(vec![
        (s("a"), Type::Tuple(vec![Type::Int, Type::Int])),
        (s("b"), Type::Char),
    ]);
    assert_eq!(t.get_size(&env), Ok(3));
}

#[test]
fn array_size_is_length_times_element() {
    let mut env = Env::new();
    let t = Type::Array(Box::new(Type::Tuple(vec![Type::Int, Type::Bool])), Box::new(ConstExpr::Int(5)));
    assert_eq!(t.get_size(&env), Ok(10));
    env.define_const("N", ConstExpr::Int(7));
    let named = Type::Array(Box::new(Type::Int), Box::new(ConstExpr::Symbol(s("N"))));
    assert_eq!(named.get_size(&env), Ok(7));
    let negative = Type::Array(Box::new(Type::Int), Box::new(ConstExpr::Int(-1)));
    assert_eq!(negative.get_size(&env), Err(Error::InvalidArrayLength));
}

#[test]
fn tagged_union_size_is_tag_plus_largest_payload() {
    let env = Env::new();
    let t = Type::EnumUnion(vec![
        (s("Some"), Type::Int),
        (s("Pair"), Type::Tuple(vec![Type::Int, Type::Int, Type::Int])),
        (s("None"), Type::Void),
    ]);
    assert_eq!(t.get_size(&env), Ok(4));
    let option = Type::EnumUnion(vec![(s("Some"), Type::Int), (s("None"), Type::Void)]);
    assert_eq!(option.get_size(&env), Ok(2));
}

#[test]
fn recursive_type_through_pointer_has_a_size() {
    let mut env = Env::new();
    env.define_type(
        "List",
        Type::Struct(vec![
            (s("head"), Type::Int),
            (s("tail"), Type::Pointer(Mutability::Immutable, Box::new(Type::Symbol(s("List"))))),
        ]),
    );
    assert_eq!(Type::Symbol(s("List")).get_size(&env), Ok(2));
    env.define_type("Bad", Type::Tuple(vec![Type::Symbol(s("Bad"))]));
    assert_eq!(Type::Symbol(s("Bad")).get_size(&env), Err(Error::RecursionLimit));
}

#[test]
fn applied_and_let_types_are_sized_by_their_arguments() {
    let mut env = Env::new();
    env.define_type(
        "Pair",
        Type::Poly(vec![s("T")], Box::new(Type::Tuple(vec![Type::Symbol(s("T")), Type::Symbol(s("T"))]))),
    );
    let applied = Type::Apply(
        Box::new(Type::Symbol(s("Pair"))),
        vec![Type::Tuple(vec![Type::Int, Type::Int, Type::Int])],
    );
    assert_eq!(applied.get_size(&env), Ok(6));
    let wrong = Type::Apply(Box::new(Type::Symbol(s("Pair"))), vec![Type::Int, Type::Int]);
    assert_eq!(wrong.get_size(&env), Err(Error::ArityMismatch));
    let bound = Type::Let(
        s("X"),
        Box::new(Type::Tuple(vec![Type::Int, Type::Int])),
        Box::new(Type::Tuple(vec![Type::Symbol(s("X")), Type::Char])),
    );
    assert_eq!(bound.get_size(&env), Ok(3));
    assert_eq!(Type::Symbol(s("Pair")).get_size(&env), Err(Error::UnsizedType));
}

#[test]
fn primitives_are_one_cell() {
    let env = Env::new();
    for t in [Type::Int, Type::Float, Type::Bool, Type::Char, Type::Cell, Type::Void, Type::Never] {
        assert_eq!(t.get_size(&env), Ok(1));
    }
    assert_eq!(Type::Enum(vec![s("A"), s("B")]).get_size(&env), Ok(1));
    assert_eq!(Type::Pointer(Mutability::Mutable, Box::new(Type::Tuple(vec![Type::Int, Type::Int, Type::Int, Type::Int]))).get_size(&env), Ok(1));
}

#[test]
fn equality_is_reflexive_and_symmetric() {
    let mut env = Env::new();
    env.define_type("Num", Type::Int);
    let a = Type::Tuple(vec![Type::Symbol(s("Num")), Type::Bool]);
    let b = Type::Tuple(vec![Type::Int, Type::Bool]);
    let c = Type::Tuple(vec![Type::Int, Type::Char]);
    assert!(a.equals(&a, &env));
    assert!(a.equals(&b, &env));
    assert!(b.equals(&a, &env));
    assert!(!a.equals(&c, &env));
    assert!(!c.equals(&a, &env));
}

#[test]
fn recursive_types_compare_equal() {
    let mut env = Env::new();
    let list = |name: &str| {
        Type::Struct(vec![
            (s("head"), Type::Int),
            (s("tail"), Type::Pointer(Mutability::Immutable, Box::new(Type::Symbol(s(name))))),
        ])
    };
    env.define_type("A", list("A"));
    env.define_type("B", list("B"));
    assert!(Type::Symbol(s("A")).equals(&Type::Symbol(s("B")), &env));
    assert!(Type::Symbol(s("A")).equals(&list("B"), &env));
}

#[test]
fn units_compare_by_name() {
    let env = Env::new();
    let m = Type::Unit(s("Meters"), Box::new(Type::Int));
    let f = Type::Unit(s("Feet"), Box::new(Type::Int));
    assert!(m.equals(&Type::Unit(s("Meters"), Box::new(Type::Int)), &env));
    assert!(!m.equals(&f, &env));
}

#[test]
fn copies_are_equal_to_their_originals() {
    let t = Type::Apply(
        Box::new(Type::Poly(vec![s("T")], Box::new(Type::Struct(vec![(s("x"), Type::Symbol(s("T")))])))),
        vec![Type::Array(Box::new(Type::Int), Box::new(ConstExpr::Int(3)))],
    );
    assert_eq!(t.copy(), t);
    let c = ConstExpr::Struct(vec![(s("a"), ConstExpr::Tuple(vec![ConstExpr::Null, ConstExpr::Float(7)]))]);
    assert_eq!(c.copy(), c);
}
