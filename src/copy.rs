//! Deep copies of types and constants.
//!
//! A copy is equal to its original but for the identity of the vectors it is
//! made of: `type_copy(a, b)` and `const_copy(a, b)` say that `b` is such a
//! copy of `a`. Parts shared through `Rc` are shared by the copy too.
use crate::lir::{ConstExpr, FFIProcedure, PolyProcedure, Type};
use std::rc::Rc;
use vstd::prelude::*;

verus! {

/// `b` is a copy of type `a`.
pub open spec fn type_copy(a: Type, b: Type) -> bool
    decreases a, 0nat,
{
    match (a, b) {
        (Type::Pointer(m1, t1), Type::Pointer(m2, t2)) => m1 == m2 && type_copy(*t1, *t2),
        (Type::Array(t1, l1), Type::Array(t2, l2)) => type_copy(*t1, *t2) && const_copy(*l1, *l2),
        (Type::Tuple(x), Type::Tuple(y)) => types_copy(x@, y@),
        (Type::Struct(x), Type::Struct(y)) => fields_copy(x@, y@),
        (Type::Enum(x), Type::Enum(y)) => x@ == y@,
        (Type::EnumUnion(x), Type::EnumUnion(y)) => fields_copy(x@, y@),
        (Type::Proc(x, r1), Type::Proc(y, r2)) => types_copy(x@, y@) && type_copy(*r1, *r2),
        (Type::Unit(n1, t1), Type::Unit(n2, t2)) => n1 == n2 && type_copy(*t1, *t2),
        (Type::Poly(p1, b1), Type::Poly(p2, b2)) => p1@ == p2@ && type_copy(*b1, *b2),
        (Type::Apply(h1, x), Type::Apply(h2, y)) => type_copy(*h1, *h2) && types_copy(x@, y@),
        (Type::Let(n1, x1, y1), Type::Let(n2, x2, y2)) => n1 == n2 && type_copy(*x1, *x2) && type_copy(
            *y1,
            *y2,
        ),
        (Type::Tuple(_), _) | (Type::Struct(_), _) | (Type::Enum(_), _) | (Type::EnumUnion(_), _)
        | (Type::Proc(_, _), _) | (Type::Poly(_, _), _) | (Type::Apply(_, _), _) | (
            Type::Pointer(_, _),
            _,
        ) | (Type::Array(_, _), _) | (Type::Unit(_, _), _) | (Type::Let(_, _, _), _) => false,
        _ => a == b,
    }
}

/// `ys` are copies of types `xs`, in order.
pub open spec fn types_copy(xs: Seq<Type>, ys: Seq<Type>) -> bool
    decreases xs, 1nat,
{
    xs.len() == ys.len() && (xs.len() == 0 || (types_copy(
        xs.subrange(0, xs.len() - 1),
        ys.subrange(0, ys.len() - 1),
    ) && type_copy(xs[xs.len() - 1], ys[ys.len() - 1])))
}

/// `ys` are copies of the named types `xs`, in order, with the same names.
pub open spec fn fields_copy(xs: Seq<(String, Type)>, ys: Seq<(String, Type)>) -> bool
    decreases xs, 1nat,
{
    xs.len() == ys.len() && (xs.len() == 0 || (fields_copy(
        xs.subrange(0, xs.len() - 1),
        ys.subrange(0, ys.len() - 1),
    ) && xs[xs.len() - 1].0 == ys[ys.len() - 1].0 && type_copy(xs[xs.len() - 1].1, ys[ys.len() - 1].1)))
}

/// `b` is a copy of constant `a`.
pub open spec fn const_copy(a: ConstExpr, b: ConstExpr) -> bool
    decreases a, 0nat,
{
    match (a, b) {
        (ConstExpr::Array(x), ConstExpr::Array(y)) => consts_copy(x@, y@),
        (ConstExpr::Tuple(x), ConstExpr::Tuple(y)) => consts_copy(x@, y@),
        (ConstExpr::Struct(x), ConstExpr::Struct(y)) => cfields_copy(x@, y@),
        (ConstExpr::Of(t1, n1), ConstExpr::Of(t2, n2)) => type_copy(t1, t2) && n1 == n2,
        (ConstExpr::EnumUnion(t1, n1, c1), ConstExpr::EnumUnion(t2, n2, c2)) => type_copy(t1, t2) && n1
            == n2 && const_copy(*c1, *c2),
        (ConstExpr::SizeOfType(t1), ConstExpr::SizeOfType(t2)) => type_copy(t1, t2),
        (ConstExpr::Monomorphize(c1, x), ConstExpr::Monomorphize(c2, y)) => const_copy(*c1, *c2)
            && types_copy(x@, y@),
        (ConstExpr::Type(t1), ConstExpr::Type(t2)) => type_copy(t1, t2),
        (ConstExpr::Array(_), _) | (ConstExpr::Tuple(_), _) | (ConstExpr::Struct(_), _) | (
            ConstExpr::Of(_, _),
            _,
        ) | (ConstExpr::EnumUnion(_, _, _), _) | (ConstExpr::SizeOfType(_), _) | (
            ConstExpr::Monomorphize(_, _),
            _,
        ) | (ConstExpr::Type(_), _) => false,
        _ => a == b,
    }
}

/// `ys` are copies of constants `xs`, in order.
pub open spec fn consts_copy(xs: Seq<ConstExpr>, ys: Seq<ConstExpr>) -> bool
    decreases xs, 1nat,
{
    xs.len() == ys.len() && (xs.len() == 0 || (consts_copy(
        xs.subrange(0, xs.len() - 1),
        ys.subrange(0, ys.len() - 1),
    ) && const_copy(xs[xs.len() - 1], ys[ys.len() - 1])))
}

/// `ys` are copies of the named constants `xs`, in order, with the same names.
pub open spec fn cfields_copy(xs: Seq<(String, ConstExpr)>, ys: Seq<(String, ConstExpr)>) -> bool
    decreases xs, 1nat,
{
    xs.len() == ys.len() && (xs.len() == 0 || (cfields_copy(
        xs.subrange(0, xs.len() - 1),
        ys.subrange(0, ys.len() - 1),
    ) && xs[xs.len() - 1].0 == ys[ys.len() - 1].0 && const_copy(
        xs[xs.len() - 1].1,
        ys[ys.len() - 1].1,
    )))
}

fn copy_strings(v: &Vec<String>) -> (r: Vec<String>)
    ensures
        r@ == v@,
{
    let mut r: Vec<String> = Vec::new();
    for i in 0..v.len()
        invariant
            r@ == v@.take(i as int),
    {
        r.push(v[i].clone());
        proof {
            assert(v@.take(i + 1) =~= v@.take(i as int).push(v@[i as int]));
        }
    }
    proof {
        assert(v@.take(v@.len() as int) =~= v@);
    }
    r
}

fn copy_types(v: &Vec<Type>, Ghost(owner): Ghost<Type>) -> (r: Vec<Type>)
    requires
        forall|i: int| 0 <= i < v@.len() ==> decreases_to!(owner => v@[i]),
    ensures
        types_copy(v@, r@),
    decreases owner, 1nat,
{
    let mut r: Vec<Type> = Vec::new();
    for i in 0..v.len()
        invariant
            forall|i: int| 0 <= i < v@.len() ==> decreases_to!(owner => v@[i]),
            types_copy(v@.take(i as int), r@),
    {
        proof {
            assert(decreases_to!(owner => v@[i as int]));
        }
        let x = v[i].copy();
        let ghost before = r@;
        r.push(x);
        proof {
            let s = v@.take(i + 1);
            assert(s.subrange(0, s.len() - 1) =~= v@.take(i as int));
            assert(r@.subrange(0, r@.len() - 1) =~= before);
        }
    }
    proof {
        assert(v@.take(v@.len() as int) =~= v@);
    }
    r
}

fn copy_fields(v: &Vec<(String, Type)>, Ghost(owner): Ghost<Type>) -> (r: Vec<(String, Type)>)
    requires
        forall|i: int| 0 <= i < v@.len() ==> decreases_to!(owner => v@[i].1),
    ensures
        fields_copy(v@, r@),
    decreases owner, 1nat,
{
    let mut r: Vec<(String, Type)> = Vec::new();
    for i in 0..v.len()
        invariant
            forall|i: int| 0 <= i < v@.len() ==> decreases_to!(owner => v@[i].1),
            fields_copy(v@.take(i as int), r@),
    {
        proof {
            assert(decreases_to!(owner => v@[i as int].1));
        }
        let x = (v[i].0.clone(), v[i].1.copy());
        let ghost before = r@;
        r.push(x);
        proof {
            let s = v@.take(i + 1);
            assert(s.subrange(0, s.len() - 1) =~= v@.take(i as int));
            assert(r@.subrange(0, r@.len() - 1) =~= before);
        }
    }
    proof {
        assert(v@.take(v@.len() as int) =~= v@);
    }
    r
}

pub(crate) fn copy_consts(v: &Vec<ConstExpr>, Ghost(owner): Ghost<ConstExpr>) -> (r: Vec<ConstExpr>)
    requires
        forall|i: int| 0 <= i < v@.len() ==> decreases_to!(owner => v@[i]),
    ensures
        consts_copy(v@, r@),
    decreases owner, 1nat,
{
    let mut r: Vec<ConstExpr> = Vec::new();
    for i in 0..v.len()
        invariant
            forall|i: int| 0 <= i < v@.len() ==> decreases_to!(owner => v@[i]),
            consts_copy(v@.take(i as int), r@),
    {
        proof {
            assert(decreases_to!(owner => v@[i as int]));
        }
        let x = v[i].copy();
        let ghost before = r@;
        r.push(x);
        proof {
            let s = v@.take(i + 1);
            assert(s.subrange(0, s.len() - 1) =~= v@.take(i as int));
            assert(r@.subrange(0, r@.len() - 1) =~= before);
        }
    }
    proof {
        assert(v@.take(v@.len() as int) =~= v@);
    }
    r
}

fn copy_cfields(v: &Vec<(String, ConstExpr)>, Ghost(owner): Ghost<ConstExpr>) -> (r: Vec<
    (String, ConstExpr),
>)
    requires
        forall|i: int| 0 <= i < v@.len() ==> decreases_to!(owner => v@[i].1),
    ensures
        cfields_copy(v@, r@),
    decreases owner, 1nat,
{
    let mut r: Vec<(String, ConstExpr)> = Vec::new();
    for i in 0..v.len()
        invariant
            forall|i: int| 0 <= i < v@.len() ==> decreases_to!(owner => v@[i].1),
            cfields_copy(v@.take(i as int), r@),
    {
        proof {
            assert(decreases_to!(owner => v@[i as int].1));
        }
        let x = (v[i].0.clone(), v[i].1.copy());
        let ghost before = r@;
        r.push(x);
        proof {
            let s = v@.take(i + 1);
            assert(s.subrange(0, s.len() - 1) =~= v@.take(i as int));
            assert(r@.subrange(0, r@.len() - 1) =~= before);
        }
    }
    proof {
        assert(v@.take(v@.len() as int) =~= v@);
    }
    r
}

impl Type {
    /// A deep copy of this type.
    pub fn copy(&self) -> (r: Type)
        ensures
            type_copy(*self, r),
        decreases self, 2nat,
    {
        let ghost me = *self;
        match self {
            Type::Int => Type::Int,
            Type::Float => Type::Float,
            Type::Bool => Type::Bool,
            Type::Char => Type::Char,
            Type::Cell => Type::Cell,
            Type::Void => Type::Void,
            Type::Never => Type::Never,
            Type::Pointer(m, t) => Type::Pointer(*m, Box::new(t.copy())),
            Type::Array(t, l) => Type::Array(Box::new(t.copy()), Box::new(l.copy())),
            Type::Tuple(x) => {
                proof {
                    assert forall|i: int| 0 <= i < x@.len() implies decreases_to!(me => x@[i]) by {
                        assert(decreases_to!(me => me->Tuple_0));
                        assert(decreases_to!(me->Tuple_0 => me->Tuple_0@));
                        assert(decreases_to!(me->Tuple_0@ => me->Tuple_0@[i]));
                    }
                }
                Type::Tuple(copy_types(x, Ghost(me)))
            },
            Type::Struct(x) => {
                proof {
                    assert forall|i: int| 0 <= i < x@.len() implies decreases_to!(me => x@[i].1) by {
                        assert(decreases_to!(me => me->Struct_0));
                        assert(decreases_to!(me->Struct_0 => me->Struct_0@));
                        assert(decreases_to!(me->Struct_0@ => me->Struct_0@[i]));
                        assert(decreases_to!(me->Struct_0@[i] => me->Struct_0@[i].1));
                    }
                }
                Type::Struct(copy_fields(x, Ghost(me)))
            },
            Type::Enum(x) => Type::Enum(copy_strings(x)),
            Type::EnumUnion(x) => {
                proof {
                    assert forall|i: int| 0 <= i < x@.len() implies decreases_to!(me => x@[i].1) by {
                        assert(decreases_to!(me => me->EnumUnion_0));
                        assert(decreases_to!(me->EnumUnion_0 => me->EnumUnion_0@));
                        assert(decreases_to!(me->EnumUnion_0@ => me->EnumUnion_0@[i]));
                        assert(decreases_to!(me->EnumUnion_0@[i] => me->EnumUnion_0@[i].1));
                    }
                }
                Type::EnumUnion(copy_fields(x, Ghost(me)))
            },
            Type::Proc(x, ret) => {
                proof {
                    assert forall|i: int| 0 <= i < x@.len() implies decreases_to!(me => x@[i]) by {
                        assert(decreases_to!(me => me->Proc_0));
                        assert(decreases_to!(me->Proc_0 => me->Proc_0@));
                        assert(decreases_to!(me->Proc_0@ => me->Proc_0@[i]));
                    }
                }
                Type::Proc(copy_types(x, Ghost(me)), Box::new(ret.copy()))
            },
            Type::Symbol(n) => Type::Symbol(n.clone()),
            Type::Unit(n, t) => Type::Unit(n.clone(), Box::new(t.copy())),
            Type::Poly(p, b) => Type::Poly(copy_strings(p), Box::new(b.copy())),
            Type::Apply(h, x) => {
                proof {
                    assert forall|i: int| 0 <= i < x@.len() implies decreases_to!(me => x@[i]) by {
                        assert(decreases_to!(me => me->Apply_1));
                        assert(decreases_to!(me->Apply_1 => me->Apply_1@));
                        assert(decreases_to!(me->Apply_1@ => me->Apply_1@[i]));
                    }
                }
                Type::Apply(Box::new(h.copy()), copy_types(x, Ghost(me)))
            },
            Type::Let(n, x, y) => Type::Let(n.clone(), Box::new(x.copy()), Box::new(y.copy())),
        }
    }
}

impl ConstExpr {
    /// A deep copy of this constant.
    pub fn copy(&self) -> (r: ConstExpr)
        ensures
            const_copy(*self, r),
        decreases self, 2nat,
    {
        let ghost me = *self;
        match self {
            ConstExpr::Int(n) => ConstExpr::Int(*n),
            ConstExpr::Float(n) => ConstExpr::Float(*n),
            ConstExpr::Char(c) => ConstExpr::Char(*c),
            ConstExpr::Bool(b) => ConstExpr::Bool(*b),
            ConstExpr::Void => ConstExpr::Void,
            ConstExpr::Null => ConstExpr::Null,
            ConstExpr::Symbol(s) => ConstExpr::Symbol(s.clone()),
            ConstExpr::Array(x) => {
                proof {
                    assert forall|i: int| 0 <= i < x@.len() implies decreases_to!(me => x@[i]) by {
                        assert(decreases_to!(me => me->Array_0));
                        assert(decreases_to!(me->Array_0 => me->Array_0@));
                        assert(decreases_to!(me->Array_0@ => me->Array_0@[i]));
                    }
                }
                ConstExpr::Array(copy_consts(x, Ghost(me)))
            },
            ConstExpr::Tuple(x) => {
                proof {
                    assert forall|i: int| 0 <= i < x@.len() implies decreases_to!(me => x@[i]) by {
                        assert(decreases_to!(me => me->Tuple_0));
                        assert(decreases_to!(me->Tuple_0 => me->Tuple_0@));
                        assert(decreases_to!(me->Tuple_0@ => me->Tuple_0@[i]));
                    }
                }
                ConstExpr::Tuple(copy_consts(x, Ghost(me)))
            },
            ConstExpr::Struct(x) => {
                proof {
                    assert forall|i: int| 0 <= i < x@.len() implies decreases_to!(me => x@[i].1) by {
                        assert(decreases_to!(me => me->Struct_0));
                        assert(decreases_to!(me->Struct_0 => me->Struct_0@));
                        assert(decreases_to!(me->Struct_0@ => me->Struct_0@[i]));
                        assert(decreases_to!(me->Struct_0@[i] => me->Struct_0@[i].1));
                    }
                }
                ConstExpr::Struct(copy_cfields(x, Ghost(me)))
            },
            ConstExpr::Of(t, n) => ConstExpr::Of(t.copy(), n.clone()),
            ConstExpr::EnumUnion(t, n, c) => ConstExpr::EnumUnion(t.copy(), n.clone(), Box::new(c.copy())),
            ConstExpr::SizeOfType(t) => ConstExpr::SizeOfType(t.copy()),
            ConstExpr::SizeOfExpr(e) => ConstExpr::SizeOfExpr(Rc::clone(e)),
            ConstExpr::Monomorphize(c, x) => {
                proof {
                    assert forall|i: int| 0 <= i < x@.len() implies decreases_to!(me => x@[i]) by {
                        assert(decreases_to!(me => me->Monomorphize_1));
                        assert(decreases_to!(me->Monomorphize_1 => me->Monomorphize_1@));
                        assert(decreases_to!(me->Monomorphize_1@ => me->Monomorphize_1@[i]));
                    }
                }
                ConstExpr::Monomorphize(Box::new(c.copy()), copy_types_of_const(x, Ghost(me)))
            },
            ConstExpr::Proc(p) => ConstExpr::Proc(p.copy()),
            ConstExpr::PolyProc(p) => ConstExpr::PolyProc(
                PolyProcedure {
                    name: p.name.clone(),
                    ty_params: Rc::clone(&p.ty_params),
                    args: Rc::clone(&p.args),
                    ret: Rc::clone(&p.ret),
                    body: Rc::clone(&p.body),
                },
            ),
            ConstExpr::FFIProcedure(f) => ConstExpr::FFIProcedure(
                FFIProcedure { name: f.name.clone(), args: Rc::clone(&f.args), ret: Rc::clone(&f.ret) },
            ),
            ConstExpr::Type(t) => ConstExpr::Type(t.copy()),
        }
    }
}

fn copy_types_of_const(v: &Vec<Type>, Ghost(owner): Ghost<ConstExpr>) -> (r: Vec<Type>)
    requires
        forall|i: int| 0 <= i < v@.len() ==> decreases_to!(owner => v@[i]),
    ensures
        types_copy(v@, r@),
    decreases owner, 1nat,
{
    let mut r: Vec<Type> = Vec::new();
    for i in 0..v.len()
        invariant
            forall|i: int| 0 <= i < v@.len() ==> decreases_to!(owner => v@[i]),
            types_copy(v@.take(i as int), r@),
    {
        proof {
            assert(decreases_to!(owner => v@[i as int]));
        }
        let x = v[i].copy();
        let ghost before = r@;
        r.push(x);
        proof {
            let s = v@.take(i + 1);
            assert(s.subrange(0, s.len() - 1) =~= v@.take(i as int));
            assert(r@.subrange(0, r@.len() - 1) =~= before);
        }
    }
    proof {
        assert(v@.take(v@.len() as int) =~= v@);
    }
    r
}

} // verus!
