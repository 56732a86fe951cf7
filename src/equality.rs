//! Equality of types: structural, with names resolved in the environment.
//!
//! Recursive types are compared coinductively: a pair of type names already
//! being compared on the current path is taken as equal.
use crate::env::Env;
use crate::lir::{ConstExpr, Type};
use crate::size::{array_len, array_length, field_types, size_result};
use vstd::prelude::*;

verus! {

/// How deep a comparison of types may nest before its operands are taken as equal.
pub const EQ_FUEL: u32 = 256;

/// The text of some names.
pub open spec fn name_views(ns: Seq<String>) -> Seq<Seq<char>> {
    ns.map_values(|s: String| s@)
}

/// The field or variant names of a structure or tagged union.
pub open spec fn field_names(fs: Seq<(String, Type)>) -> Seq<Seq<char>> {
    fs.map_values(|p: (String, Type)| p.0@)
}

/// A type name that the environment defines.
pub open spec fn resolvable(types: Map<Seq<char>, Type>, t: Type) -> bool {
    match t {
        Type::Symbol(x) => types.contains_key(x@),
        _ => false,
    }
}

/// A type with its name, if it has one the environment defines, replaced by its definition.
pub open spec fn resolve(types: Map<Seq<char>, Type>, t: Type) -> Type {
    match t {
        Type::Symbol(x) => if types.contains_key(x@) {
            types[x@]
        } else {
            t
        },
        _ => t,
    }
}

/// Two array lengths are the same: both evaluate to the same number, or neither evaluates.
pub open spec fn same_length(consts: Map<Seq<char>, ConstExpr>, a: ConstExpr, b: ConstExpr) -> bool {
    match (array_length(consts, a), array_length(consts, b)) {
        (Ok(x), Ok(y)) => x == y,
        (Err(_), Err(_)) => true,
        _ => false,
    }
}

/// The pairs of names with each pair swapped.
pub open spec fn swap_pairs(seen: Seq<(Seq<char>, Seq<char>)>) -> Seq<(Seq<char>, Seq<char>)> {
    seen.map_values(|p: (Seq<char>, Seq<char>)| (p.1, p.0))
}

/// Whether two types are equal, given the pairs of names already being compared.
pub open spec fn types_equal(
    types: Map<Seq<char>, Type>,
    consts: Map<Seq<char>, ConstExpr>,
    seen: Seq<(Seq<char>, Seq<char>)>,
    a: Type,
    b: Type,
    fuel: nat,
) -> bool
    decreases fuel, 0nat,
{
    if fuel == 0 {
        true
    } else {
        let f = (fuel - 1) as nat;
        if resolvable(types, a) || resolvable(types, b) {
            match (a, b) {
                (Type::Symbol(x), Type::Symbol(y)) => if seen.contains((x@, y@)) {
                    true
                } else {
                    types_equal(types, consts, seen.push((x@, y@)), resolve(types, a), resolve(types, b), f)
                },
                _ => types_equal(types, consts, seen, resolve(types, a), resolve(types, b), f),
            }
        } else {
            match (a, b) {
                (Type::Int, Type::Int) => true,
                (Type::Float, Type::Float) => true,
                (Type::Bool, Type::Bool) => true,
                (Type::Char, Type::Char) => true,
                (Type::Cell, Type::Cell) => true,
                (Type::Void, Type::Void) => true,
                (Type::Never, Type::Never) => true,
                (Type::Pointer(m1, t1), Type::Pointer(m2, t2)) => m1 == m2 && types_equal(
                    types,
                    consts,
                    seen,
                    *t1,
                    *t2,
                    f,
                ),
                (Type::Array(t1, l1), Type::Array(t2, l2)) => same_length(consts, *l1, *l2)
                    && types_equal(types, consts, seen, *t1, *t2, f),
                (Type::Tuple(xs), Type::Tuple(ys)) => lists_equal(types, consts, seen, xs@, ys@, f),
                (Type::Struct(xs), Type::Struct(ys)) => field_names(xs@) == field_names(ys@)
                    && lists_equal(types, consts, seen, field_types(xs@), field_types(ys@), f),
                (Type::Enum(xs), Type::Enum(ys)) => name_views(xs@) == name_views(ys@),
                (Type::EnumUnion(xs), Type::EnumUnion(ys)) => field_names(xs@) == field_names(ys@)
                    && lists_equal(types, consts, seen, field_types(xs@), field_types(ys@), f),
                (Type::Proc(xs, r1), Type::Proc(ys, r2)) => lists_equal(types, consts, seen, xs@, ys@, f)
                    && types_equal(types, consts, seen, *r1, *r2, f),
                (Type::Symbol(x), Type::Symbol(y)) => x@ == y@,
                (Type::Unit(n1, t1), Type::Unit(n2, t2)) => n1@ == n2@ && types_equal(
                    types,
                    consts,
                    seen,
                    *t1,
                    *t2,
                    f,
                ),
                (Type::Poly(p1, b1), Type::Poly(p2, b2)) => name_views(p1@) == name_views(p2@)
                    && types_equal(types, consts, seen, *b1, *b2, f),
                (Type::Apply(h1, a1), Type::Apply(h2, a2)) => types_equal(types, consts, seen, *h1, *h2, f)
                    && lists_equal(types, consts, seen, a1@, a2@, f),
                (Type::Let(n1, x1, y1), Type::Let(n2, x2, y2)) => n1@ == n2@ && types_equal(
                    types,
                    consts,
                    seen,
                    *x1,
                    *x2,
                    f,
                ) && types_equal(types, consts, seen, *y1, *y2, f),
                _ => false,
            }
        }
    }
}

/// Whether two lists of types are equal, element by element.
pub open spec fn lists_equal(
    types: Map<Seq<char>, Type>,
    consts: Map<Seq<char>, ConstExpr>,
    seen: Seq<(Seq<char>, Seq<char>)>,
    xs: Seq<Type>,
    ys: Seq<Type>,
    fuel: nat,
) -> bool
    decreases fuel, xs.len() + 1,
{
    if xs.len() != ys.len() {
        false
    } else if xs.len() == 0 {
        true
    } else {
        lists_equal(types, consts, seen, xs.drop_last(), ys.drop_last(), fuel) && types_equal(
            types,
            consts,
            seen,
            xs.last(),
            ys.last(),
            fuel,
        )
    }
}

/// Every type is equal to itself.
pub proof fn lemma_types_equal_reflexive(
    types: Map<Seq<char>, Type>,
    consts: Map<Seq<char>, ConstExpr>,
    seen: Seq<(Seq<char>, Seq<char>)>,
    a: Type,
    fuel: nat,
)
    ensures
        types_equal(types, consts, seen, a, a, fuel),
    decreases fuel, 0nat,
{
    if fuel > 0 {
        let f = (fuel - 1) as nat;
        if resolvable(types, a) {
            if let Type::Symbol(x) = a {
                if !seen.contains((x@, x@)) {
                    lemma_types_equal_reflexive(types, consts, seen.push((x@, x@)), resolve(types, a), f);
                }
            }
        } else {
            match a {
                Type::Pointer(_, t) => lemma_types_equal_reflexive(types, consts, seen, *t, f),
                Type::Array(t, _) => lemma_types_equal_reflexive(types, consts, seen, *t, f),
                Type::Tuple(xs) => lemma_lists_equal_reflexive(types, consts, seen, xs@, f),
                Type::Struct(xs) => lemma_lists_equal_reflexive(types, consts, seen, field_types(xs@), f),
                Type::EnumUnion(xs) => lemma_lists_equal_reflexive(
                    types,
                    consts,
                    seen,
                    field_types(xs@),
                    f,
                ),
                Type::Proc(xs, r) => {
                    lemma_lists_equal_reflexive(types, consts, seen, xs@, f);
                    lemma_types_equal_reflexive(types, consts, seen, *r, f);
                },
                Type::Unit(_, t) => lemma_types_equal_reflexive(types, consts, seen, *t, f),
                Type::Poly(_, t) => lemma_types_equal_reflexive(types, consts, seen, *t, f),
                Type::Apply(h, xs) => {
                    lemma_types_equal_reflexive(types, consts, seen, *h, f);
                    lemma_lists_equal_reflexive(types, consts, seen, xs@, f);
                },
                Type::Let(_, x, y) => {
                    lemma_types_equal_reflexive(types, consts, seen, *x, f);
                    lemma_types_equal_reflexive(types, consts, seen, *y, f);
                },
                _ => {},
            }
        }
    }
}

/// Every list of types is equal to itself.
pub proof fn lemma_lists_equal_reflexive(
    types: Map<Seq<char>, Type>,
    consts: Map<Seq<char>, ConstExpr>,
    seen: Seq<(Seq<char>, Seq<char>)>,
    xs: Seq<Type>,
    fuel: nat,
)
    ensures
        lists_equal(types, consts, seen, xs, xs, fuel),
    decreases fuel, xs.len() + 1,
{
    if xs.len() > 0 {
        lemma_lists_equal_reflexive(types, consts, seen, xs.drop_last(), fuel);
        lemma_types_equal_reflexive(types, consts, seen, xs.last(), fuel);
    }
}

proof fn lemma_swap_contains(seen: Seq<(Seq<char>, Seq<char>)>, x: Seq<char>, y: Seq<char>)
    ensures
        seen.contains((x, y)) == swap_pairs(seen).contains((y, x)),
        swap_pairs(seen.push((x, y))) == swap_pairs(seen).push((y, x)),
{
    if seen.contains((x, y)) {
        let i = choose|i: int| 0 <= i < seen.len() && seen[i] == (x, y);
        assert(swap_pairs(seen)[i] == (y, x));
    }
    if swap_pairs(seen).contains((y, x)) {
        let i = choose|i: int| 0 <= i < swap_pairs(seen).len() && swap_pairs(seen)[i] == (y, x);
        assert(seen[i] == (x, y));
    }
    assert(swap_pairs(seen.push((x, y))) =~= swap_pairs(seen).push((y, x)));
}

/// Comparing two types gives the same answer in either order.
pub proof fn lemma_types_equal_symmetric(
    types: Map<Seq<char>, Type>,
    consts: Map<Seq<char>, ConstExpr>,
    seen: Seq<(Seq<char>, Seq<char>)>,
    a: Type,
    b: Type,
    fuel: nat,
)
    ensures
        types_equal(types, consts, seen, a, b, fuel) == types_equal(
            types,
            consts,
            swap_pairs(seen),
            b,
            a,
            fuel,
        ),
    decreases fuel, 0nat,
{
    if fuel > 0 {
        let f = (fuel - 1) as nat;
        if resolvable(types, a) || resolvable(types, b) {
            match (a, b) {
                (Type::Symbol(x), Type::Symbol(y)) => {
                    lemma_swap_contains(seen, x@, y@);
                    lemma_types_equal_symmetric(
                        types,
                        consts,
                        seen.push((x@, y@)),
                        resolve(types, a),
                        resolve(types, b),
                        f,
                    );
                },
                _ => lemma_types_equal_symmetric(types, consts, seen, resolve(types, a), resolve(types, b), f),
            }
        } else {
            match (a, b) {
                (Type::Pointer(_, t1), Type::Pointer(_, t2)) => lemma_types_equal_symmetric(
                    types,
                    consts,
                    seen,
                    *t1,
                    *t2,
                    f,
                ),
                (Type::Array(t1, _), Type::Array(t2, _)) => lemma_types_equal_symmetric(
                    types,
                    consts,
                    seen,
                    *t1,
                    *t2,
                    f,
                ),
                (Type::Tuple(xs), Type::Tuple(ys)) => lemma_lists_equal_symmetric(types, consts, seen, xs@, ys@, f),
                (Type::Struct(xs), Type::Struct(ys)) => lemma_lists_equal_symmetric(
                    types,
                    consts,
                    seen,
                    field_types(xs@),
                    field_types(ys@),
                    f,
                ),
                (Type::EnumUnion(xs), Type::EnumUnion(ys)) => lemma_lists_equal_symmetric(
                    types,
                    consts,
                    seen,
                    field_types(xs@),
                    field_types(ys@),
                    f,
                ),
                (Type::Proc(xs, r1), Type::Proc(ys, r2)) => {
                    lemma_lists_equal_symmetric(types, consts, seen, xs@, ys@, f);
                    lemma_types_equal_symmetric(types, consts, seen, *r1, *r2, f);
                },
                (Type::Unit(_, t1), Type::Unit(_, t2)) => lemma_types_equal_symmetric(
                    types,
                    consts,
                    seen,
                    *t1,
                    *t2,
                    f,
                ),
                (Type::Poly(_, t1), Type::Poly(_, t2)) => lemma_types_equal_symmetric(
                    types,
                    consts,
                    seen,
                    *t1,
                    *t2,
                    f,
                ),
                (Type::Apply(h1, xs), Type::Apply(h2, ys)) => {
                    lemma_types_equal_symmetric(types, consts, seen, *h1, *h2, f);
                    lemma_lists_equal_symmetric(types, consts, seen, xs@, ys@, f);
                },
                (Type::Let(_, x1, y1), Type::Let(_, x2, y2)) => {
                    lemma_types_equal_symmetric(types, consts, seen, *x1, *x2, f);
                    lemma_types_equal_symmetric(types, consts, seen, *y1, *y2, f);
                },
                _ => {},
            }
        }
    }
}

/// Comparing two lists of types gives the same answer in either order.
pub proof fn lemma_lists_equal_symmetric(
    types: Map<Seq<char>, Type>,
    consts: Map<Seq<char>, ConstExpr>,
    seen: Seq<(Seq<char>, Seq<char>)>,
    xs: Seq<Type>,
    ys: Seq<Type>,
    fuel: nat,
)
    ensures
        lists_equal(types, consts, seen, xs, ys, fuel) == lists_equal(
            types,
            consts,
            swap_pairs(seen),
            ys,
            xs,
            fuel,
        ),
    decreases fuel, xs.len() + 1,
{
    if xs.len() == ys.len() && xs.len() > 0 {
        lemma_lists_equal_symmetric(types, consts, seen, xs.drop_last(), ys.drop_last(), fuel);
        lemma_types_equal_symmetric(types, consts, seen, xs.last(), ys.last(), fuel);
    }
}

/// Type equality is reflexive and symmetric.
pub proof fn lemma_equality_reflexive_symmetric(
    types: Map<Seq<char>, Type>,
    consts: Map<Seq<char>, ConstExpr>,
    a: Type,
    b: Type,
)
    ensures
        types_equal(types, consts, Seq::empty(), a, a, EQ_FUEL as nat),
        types_equal(types, consts, Seq::empty(), a, b, EQ_FUEL as nat) == types_equal(
            types,
            consts,
            Seq::empty(),
            b,
            a,
            EQ_FUEL as nat,
        ),
{
    lemma_types_equal_reflexive(types, consts, Seq::empty(), a, EQ_FUEL as nat);
    lemma_types_equal_symmetric(types, consts, Seq::empty(), a, b, EQ_FUEL as nat);
    assert(swap_pairs(Seq::empty()) =~= Seq::<(Seq<char>, Seq<char>)>::empty());
}

/// The pairs of names being compared, as the specification sees them.
pub open spec fn pairs_view(seen: Seq<(String, String)>) -> Seq<(Seq<char>, Seq<char>)> {
    seen.map_values(|p: (String, String)| (p.0@, p.1@))
}

fn contains_pair(seen: &Vec<(String, String)>, x: &String, y: &String) -> (r: bool)
    ensures
        r == pairs_view(seen@).contains((x@, y@)),
{
    for i in 0..seen.len()
        invariant
            forall|j: int| 0 <= j < i ==> #[trigger] pairs_view(seen@)[j] != (x@, y@),
    {
        if seen[i].0 == *x && seen[i].1 == *y {
            assert(pairs_view(seen@)[i as int] == (x@, y@));
            return true;
        }
    }
    false
}

fn strings_eq(xs: &Vec<String>, ys: &Vec<String>) -> (r: bool)
    ensures
        r == (name_views(xs@) == name_views(ys@)),
{
    if xs.len() != ys.len() {
        proof {
            assert(name_views(xs@).len() != name_views(ys@).len());
        }
        return false;
    }
    for i in 0..xs.len()
        invariant
            xs@.len() == ys@.len(),
            forall|j: int| 0 <= j < i ==> #[trigger] name_views(xs@)[j] == name_views(ys@)[j],
    {
        if xs[i] != ys[i] {
            assert(name_views(xs@)[i as int] != name_views(ys@)[i as int]);
            return false;
        }
    }
    assert(name_views(xs@) =~= name_views(ys@));
    true
}

fn field_names_eq(xs: &Vec<(String, Type)>, ys: &Vec<(String, Type)>) -> (r: bool)
    ensures
        r == (field_names(xs@) == field_names(ys@)),
{
    if xs.len() != ys.len() {
        proof {
            assert(field_names(xs@).len() != field_names(ys@).len());
        }
        return false;
    }
    for i in 0..xs.len()
        invariant
            xs@.len() == ys@.len(),
            forall|j: int| 0 <= j < i ==> #[trigger] field_names(xs@)[j] == field_names(ys@)[j],
    {
        if xs[i].0 != ys[i].0 {
            assert(field_names(xs@)[i as int] != field_names(ys@)[i as int]);
            return false;
        }
    }
    assert(field_names(xs@) =~= field_names(ys@));
    true
}

fn same_length_exec(env: &Env, a: &ConstExpr, b: &ConstExpr) -> (r: bool)
    ensures
        r == same_length(env.const_table(), *a, *b),
{
    let x = array_len(env, a);
    let y = array_len(env, b);
    proof {
        assert(size_result(x) == array_length(env.const_table(), *a));
        assert(size_result(y) == array_length(env.const_table(), *b));
    }
    match (x, y) {
        (Ok(m), Ok(n)) => m == n,
        (Err(_), Err(_)) => true,
        _ => false,
    }
}

fn resolve_exec<'a>(t: &'a Type, env: &'a Env) -> (r: &'a Type)
    ensures
        *r == resolve(env.type_table(), *t),
{
    match t {
        Type::Symbol(x) => match env.get_type(x.as_str()) {
            Some(def) => def,
            None => t,
        },
        _ => t,
    }
}

fn is_resolvable(t: &Type, env: &Env) -> (r: bool)
    ensures
        r == resolvable(env.type_table(), *t),
{
    match t {
        Type::Symbol(x) => env.get_type(x.as_str()).is_some(),
        _ => false,
    }
}

fn types_eq(
    xs: &Vec<Type>,
    ys: &Vec<Type>,
    n: usize,
    env: &Env,
    seen: &mut Vec<(String, String)>,
    fuel: u32,
) -> (r: bool)
    requires
        n <= xs@.len(),
        xs@.len() == ys@.len(),
    ensures
        final(seen)@ == old(seen)@,
        r == lists_equal(
            env.type_table(),
            env.const_table(),
            pairs_view(old(seen)@),
            xs@.take(n as int),
            ys@.take(n as int),
            fuel as nat,
        ),
    decreases fuel, n + 1,
{
    proof {
        if n > 0 {
            assert(xs@.take(n as int).drop_last() =~= xs@.take(n - 1));
            assert(ys@.take(n as int).drop_last() =~= ys@.take(n - 1));
        }
    }
    if n == 0 {
        return true;
    }
    if !types_eq(xs, ys, n - 1, env, seen, fuel) {
        return false;
    }
    eq_in(&xs[n - 1], &ys[n - 1], env, seen, fuel)
}

fn fields_eq(
    xs: &Vec<(String, Type)>,
    ys: &Vec<(String, Type)>,
    n: usize,
    env: &Env,
    seen: &mut Vec<(String, String)>,
    fuel: u32,
) -> (r: bool)
    requires
        n <= xs@.len(),
        xs@.len() == ys@.len(),
    ensures
        final(seen)@ == old(seen)@,
        r == lists_equal(
            env.type_table(),
            env.const_table(),
            pairs_view(old(seen)@),
            field_types(xs@).take(n as int),
            field_types(ys@).take(n as int),
            fuel as nat,
        ),
    decreases fuel, n + 1,
{
    proof {
        if n > 0 {
            assert(field_types(xs@).take(n as int).drop_last() =~= field_types(xs@).take(n - 1));
            assert(field_types(ys@).take(n as int).drop_last() =~= field_types(ys@).take(n - 1));
        }
    }
    if n == 0 {
        return true;
    }
    if !fields_eq(xs, ys, n - 1, env, seen, fuel) {
        return false;
    }
    eq_in(&xs[n - 1].1, &ys[n - 1].1, env, seen, fuel)
}

fn all_types_eq(
    xs: &Vec<Type>,
    ys: &Vec<Type>,
    env: &Env,
    seen: &mut Vec<(String, String)>,
    fuel: u32,
) -> (r: bool)
    ensures
        final(seen)@ == old(seen)@,
        r == lists_equal(
            env.type_table(),
            env.const_table(),
            pairs_view(old(seen)@),
            xs@,
            ys@,
            fuel as nat,
        ),
    decreases fuel, xs@.len() + 2,
{
    if xs.len() != ys.len() {
        return false;
    }
    proof {
        assert(xs@.take(xs@.len() as int) =~= xs@);
        assert(ys@.take(ys@.len() as int) =~= ys@);
    }
    types_eq(xs, ys, xs.len(), env, seen, fuel)
}

fn all_fields_eq(
    xs: &Vec<(String, Type)>,
    ys: &Vec<(String, Type)>,
    env: &Env,
    seen: &mut Vec<(String, String)>,
    fuel: u32,
) -> (r: bool)
    ensures
        final(seen)@ == old(seen)@,
        r == (field_names(xs@) == field_names(ys@) && lists_equal(
            env.type_table(),
            env.const_table(),
            pairs_view(old(seen)@),
            field_types(xs@),
            field_types(ys@),
            fuel as nat,
        )),
    decreases fuel, xs@.len() + 2,
{
    if !field_names_eq(xs, ys) {
        return false;
    }
    proof {
        assert(field_names(xs@).len() == xs@.len());
        assert(field_types(xs@).take(xs@.len() as int) =~= field_types(xs@));
        assert(field_types(ys@).take(ys@.len() as int) =~= field_types(ys@));
    }
    fields_eq(xs, ys, xs.len(), env, seen, fuel)
}

fn eq_in(a: &Type, b: &Type, env: &Env, seen: &mut Vec<(String, String)>, fuel: u32) -> (r: bool)
    ensures
        final(seen)@ == old(seen)@,
        r == types_equal(
            env.type_table(),
            env.const_table(),
            pairs_view(old(seen)@),
            *a,
            *b,
            fuel as nat,
        ),
    decreases fuel, 0nat,
{
    if fuel == 0 {
        return true;
    }
    let f = fuel - 1;
    if is_resolvable(a, env) || is_resolvable(b, env) {
        let a2 = resolve_exec(a, env);
        let b2 = resolve_exec(b, env);
        match (a, b) {
            (Type::Symbol(x), Type::Symbol(y)) => {
                if contains_pair(seen, x, y) {
                    return true;
                }
                let ghost before = seen@;
                seen.push((x.clone(), y.clone()));
                proof {
                    assert(pairs_view(seen@) =~= pairs_view(before).push((x@, y@)));
                }
                let r = eq_in(a2, b2, env, seen, f);
                seen.pop();
                proof {
                    assert(seen@ =~= before);
                }
                return r;
            },
            _ => {
                return eq_in(a2, b2, env, seen, f);
            },
        }
    }
    match (a, b) {
        (Type::Int, Type::Int) => true,
        (Type::Float, Type::Float) => true,
        (Type::Bool, Type::Bool) => true,
        (Type::Char, Type::Char) => true,
        (Type::Cell, Type::Cell) => true,
        (Type::Void, Type::Void) => true,
        (Type::Never, Type::Never) => true,
        (Type::Pointer(m1, t1), Type::Pointer(m2, t2)) => *m1 == *m2 && eq_in(t1, t2, env, seen, f),
        (Type::Array(t1, l1), Type::Array(t2, l2)) => same_length_exec(env, l1, l2) && eq_in(
            t1,
            t2,
            env,
            seen,
            f,
        ),
        (Type::Tuple(xs), Type::Tuple(ys)) => all_types_eq(xs, ys, env, seen, f),
        (Type::Struct(xs), Type::Struct(ys)) => all_fields_eq(xs, ys, env, seen, f),
        (Type::Enum(xs), Type::Enum(ys)) => strings_eq(xs, ys),
        (Type::EnumUnion(xs), Type::EnumUnion(ys)) => all_fields_eq(xs, ys, env, seen, f),
        (Type::Proc(xs, r1), Type::Proc(ys, r2)) => all_types_eq(xs, ys, env, seen, f) && eq_in(
            r1,
            r2,
            env,
            seen,
            f,
        ),
        (Type::Symbol(x), Type::Symbol(y)) => *x == *y,
        (Type::Unit(n1, t1), Type::Unit(n2, t2)) => *n1 == *n2 && eq_in(t1, t2, env, seen, f),
        (Type::Poly(p1, b1), Type::Poly(p2, b2)) => strings_eq(p1, p2) && eq_in(b1, b2, env, seen, f),
        (Type::Apply(h1, a1), Type::Apply(h2, a2)) => eq_in(h1, h2, env, seen, f) && all_types_eq(
            a1,
            a2,
            env,
            seen,
            f,
        ),
        (Type::Let(n1, x1, y1), Type::Let(n2, x2, y2)) => *n1 == *n2 && eq_in(x1, x2, env, seen, f)
            && eq_in(y1, y2, env, seen, f),
        _ => false,
    }
}

/// Whether two lists of types are equal, element by element.
pub fn types_lists_equal(xs: &Vec<Type>, ys: &Vec<Type>, env: &Env) -> (r: bool)
    ensures
        r == lists_equal(env.type_table(), env.const_table(), Seq::empty(), xs@, ys@, EQ_FUEL as nat),
{
    let mut seen: Vec<(String, String)> = Vec::new();
    proof {
        assert(pairs_view(seen@) =~= Seq::<(Seq<char>, Seq<char>)>::empty());
    }
    all_types_eq(xs, ys, env, &mut seen, EQ_FUEL)
}

impl Type {
    /// Whether this type equals another, with names resolved in `env`.
    pub fn equals(&self, other: &Type, env: &Env) -> (r: bool)
        ensures
            r == types_equal(
                env.type_table(),
                env.const_table(),
                Seq::empty(),
                *self,
                *other,
                EQ_FUEL as nat,
            ),
    {
        let mut seen: Vec<(String, String)> = Vec::new();
        proof {
            assert(pairs_view(seen@) =~= Seq::<(Seq<char>, Seq<char>)>::empty());
        }
        eq_in(self, other, env, &mut seen, EQ_FUEL)
    }
}

} // verus!
