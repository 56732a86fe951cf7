use sage::env::Env;
use sage::error::Error;
use sage::lir::{ConstExpr, Mutability, Pattern, Type};
use sage::mono::MonoCache;
use sage::patterns::{is_exhaustive, name_before, variant_tag};
use std::rc::Rc;

fn s(x: &str) -> String {
    x.to_string()
}

fn option() -> Vec<(String, Type)> {
    vec![(s("Some"), Type::Int), (s("None"), Type::Void)]
}

#[test]
fn struct_members_follow_earlier_fields() {
    let env = Env::new();
    let t = Type::Struct(vec![
        (s("a"), Type::Tuple(vec![Type::Int, Type::Int])),
        (s("b"), Type::Char),
        (s("c"), Type::Bool),
    ]);
    assert_eq!(t.get_member_offset(&ConstExpr::Symbol(s("a")), &env), Ok((0, &Type::Tuple(vec![Type::Int, Type::Int]))));
    assert_eq!(t.get_member_offset(&ConstExpr::Symbol(s("c")), &env), Ok((3, &Type::Bool)));
    assert_eq!(t.get_member_offset(&ConstExpr::Symbol(s("d")), &env), Err(Error::InvalidMember));
}

#[test]
fn tuple_array_and_union_members() {
    let mut env = Env::new();
    let tuple = Type::Tuple(vec![Type::Tuple(vec![Type::Int, Type::Int, Type::Int]), Type::Char]);
    assert_eq!(tuple.get_member_offset(&ConstExpr::Int(1), &env), Ok((3, &Type::Char)));
    assert_eq!(tuple.get_member_offset(&ConstExpr::Int(2), &env), Err(Error::InvalidMember));
    let arr = Type::Array(Box::new(Type::Tuple(vec![Type::Int, Type::Int])), Box::new(ConstExpr::Int(4)));
    assert_eq!(arr.get_member_offset(&ConstExpr::Int(3), &env), Ok((6, &Type::Tuple(vec![Type::Int, Type::Int]))));
    env.define_type("Option", Type::EnumUnion(option()));
    let named = Type::Symbol(s("Option"));
    assert_eq!(named.get_member_offset(&ConstExpr::Symbol(s("Some")), &env), Ok((1, &Type::Int)));
}

#[test]
fn tags_follow_name_order() {
    let vs = option();
    assert_eq!(variant_tag(&vs, "None"), Some(0));
    assert_eq!(variant_tag(&vs, "Some"), Some(1));
    assert_eq!(variant_tag(&vs, "Other"), None);
    assert!(name_before("Apple", "Apples"));
    assert!(name_before("B", "a"));
    assert!(!name_before("b", "b"));
}

#[test]
fn match_on_every_variant_is_exhaustive() {
    let vs = option();
    let arms = vec![
        Pattern::Variant(s("Some"), Some(Box::new(Pattern::Symbol(Mutability::Immutable, s("x"))))),
        Pattern::Variant(s("None"), None),
    ];
    assert!(is_exhaustive(&arms, &vs));
    let partial = vec![Pattern::Variant(s("Some"), Some(Box::new(Pattern::Symbol(Mutability::Immutable, s("x")))))];
    assert!(!is_exhaustive(&partial, &vs));
    let with_default = vec![Pattern::Variant(s("Some"), None), Pattern::Wildcard];
    assert!(is_exhaustive(&with_default, &vs));
    let refutable_payload = vec![
        Pattern::Variant(s("Some"), Some(Box::new(Pattern::ConstExpr(ConstExpr::Int(7))))),
        Pattern::Variant(s("None"), None),
    ];
    assert!(!is_exhaustive(&refutable_payload, &vs));
    let alternatives = vec![Pattern::Alt(vec![Pattern::Variant(s("None"), None), Pattern::Variant(s("Some"), None)])];
    assert!(is_exhaustive(&alternatives, &vs));
}

#[test]
fn monomorphizing_twice_reuses_the_label() {
    let mut env = Env::new();
    env.define_type("Num", Type::Int);
    let mut cache = MonoCache::new(1, 10);
    let ints = Rc::new(vec![Type::Int]);
    let chars = Rc::new(vec![Type::Char]);
    assert_eq!(cache.monomorphize(&ints, &env), Ok(10));
    assert_eq!(cache.monomorphize(&ints, &env), Ok(10));
    assert_eq!(cache.monomorphize(&chars, &env), Ok(11));
    let named = Rc::new(vec![Type::Symbol(s("Num"))]);
    assert_eq!(cache.monomorphize(&named, &env), Ok(10));
    assert_eq!(cache.entries.len(), 2);
    let pair = Rc::new(vec![Type::Int, Type::Int]);
    assert_eq!(cache.monomorphize(&pair, &env), Err(Error::ArityMismatch));
}
