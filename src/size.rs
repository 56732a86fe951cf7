//! The size of a type, in cells.
//!
//! Names are resolved in the environment; a type applied to arguments, or a
//! type bound by `Let`, is sized by binding each parameter to the size of its
//! argument, computed where the argument is written.
use crate::env::Env;
use crate::error::Error;
use crate::lir::{ConstExpr, Type};
use vstd::prelude::*;

verus! {

/// How deep type sizing may nest, counting each name it resolves.
pub const SIZE_FUEL: u32 = 100;

/// The size bound to a type parameter in scope, the newest binding first.
pub open spec fn lookup_local(locals: Seq<(Seq<char>, nat)>, name: Seq<char>) -> Option<nat>
    decreases locals.len(),
{
    if locals.len() == 0 {
        None
    } else if locals.last().0 == name {
        Some(locals.last().1)
    } else {
        lookup_local(locals.drop_last(), name)
    }
}

/// A size, where it fits in a machine word.
pub open spec fn capped(n: nat) -> Result<nat, Error> {
    if n <= usize::MAX {
        Ok(n)
    } else {
        Err(Error::SizeOverflow)
    }
}

/// The length of an array: a non-negative integer, written or named.
pub open spec fn array_length(consts: Map<Seq<char>, ConstExpr>, c: ConstExpr) -> Result<nat, Error> {
    match c {
        ConstExpr::Int(n) => if n >= 0 {
            capped(n as nat)
        } else {
            Err(Error::InvalidArrayLength)
        },
        ConstExpr::Symbol(s) => if consts.contains_key(s@) {
            match consts[s@] {
                ConstExpr::Int(n) => if n >= 0 {
                    capped(n as nat)
                } else {
                    Err(Error::InvalidArrayLength)
                },
                _ => Err(Error::InvalidArrayLength),
            }
        } else {
            Err(Error::SymbolNotDefined(s))
        },
        _ => Err(Error::InvalidArrayLength),
    }
}

/// The parameters and body of a type with parameters, written or named.
pub open spec fn poly_of(types: Map<Seq<char>, Type>, t: Type) -> Option<(Seq<String>, Type, bool)> {
    match t {
        Type::Poly(ps, body) => Some((ps@, *body, true)),
        Type::Symbol(n) => if types.contains_key(n@) {
            match types[n@] {
                Type::Poly(ps, body) => Some((ps@, *body, false)),
                _ => None,
            }
        } else {
            None
        },
        _ => None,
    }
}

/// The size of a type, in cells, with type parameters bound to sizes.
pub open spec fn type_size(
    types: Map<Seq<char>, Type>,
    consts: Map<Seq<char>, ConstExpr>,
    locals: Seq<(Seq<char>, nat)>,
    t: Type,
    fuel: nat,
) -> Result<nat, Error>
    decreases fuel, 0nat,
{
    if fuel == 0 {
        Err(Error::RecursionLimit)
    } else {
        let f = (fuel - 1) as nat;
        match t {
            Type::Array(elem, len) => match array_length(consts, *len) {
                Ok(n) => match type_size(types, consts, locals, *elem, f) {
                    Ok(s) => capped(n * s),
                    Err(e) => Err(e),
                },
                Err(e) => Err(e),
            },
            Type::Tuple(ts) => sum_sizes(types, consts, locals, ts@, f),
            Type::Struct(fs) => sum_sizes(types, consts, locals, fs@.map_values(|p: (String, Type)| p.1), f),
            Type::EnumUnion(vs) => match max_size(
                types,
                consts,
                locals,
                vs@.map_values(|p: (String, Type)| p.1),
                f,
            ) {
                Ok(m) => capped(1 + m),
                Err(e) => Err(e),
            },
            Type::Unit(_, inner) => type_size(types, consts, locals, *inner, f),
            Type::Symbol(name) => match lookup_local(locals, name@) {
                Some(n) => Ok(n),
                None => if types.contains_key(name@) {
                    type_size(types, consts, Seq::empty(), types[name@], f)
                } else {
                    Err(Error::SymbolNotDefined(name))
                },
            },
            Type::Poly(_, _) => Err(Error::UnsizedType),
            Type::Apply(head, args) => match poly_of(types, *head) {
                Some((ps, body, inline)) => if ps.len() != args@.len() {
                    Err(Error::ArityMismatch)
                } else {
                    match bind_sizes(types, consts, locals, ps, args@, f) {
                        Ok(bound) => type_size(
                            types,
                            consts,
                            if inline {
                                locals + bound
                            } else {
                                bound
                            },
                            body,
                            f,
                        ),
                        Err(e) => Err(e),
                    }
                },
                None => Err(Error::InvalidMonomorphize),
            },
            Type::Let(name, bind, body) => match type_size(types, consts, locals, *bind, f) {
                Ok(n) => type_size(types, consts, locals.push((name@, n)), *body, f),
                Err(e) => Err(e),
            },
            // Every other type is one cell: a primitive, a pointer, an
            // enumeration's tag or a procedure's label.
            _ => Ok(1),
        }
    }
}

/// The sum of the sizes of some types.
pub open spec fn sum_sizes(
    types: Map<Seq<char>, Type>,
    consts: Map<Seq<char>, ConstExpr>,
    locals: Seq<(Seq<char>, nat)>,
    ts: Seq<Type>,
    fuel: nat,
) -> Result<nat, Error>
    decreases fuel, ts.len() + 1,
{
    if ts.len() == 0 {
        Ok(0)
    } else {
        match sum_sizes(types, consts, locals, ts.drop_last(), fuel) {
            Ok(a) => match type_size(types, consts, locals, ts.last(), fuel) {
                Ok(b) => capped(a + b),
                Err(e) => Err(e),
            },
            Err(e) => Err(e),
        }
    }
}

/// The largest of the sizes of some types (0 for none).
pub open spec fn max_size(
    types: Map<Seq<char>, Type>,
    consts: Map<Seq<char>, ConstExpr>,
    locals: Seq<(Seq<char>, nat)>,
    ts: Seq<Type>,
    fuel: nat,
) -> Result<nat, Error>
    decreases fuel, ts.len() + 1,
{
    if ts.len() == 0 {
        Ok(0)
    } else {
        match max_size(types, consts, locals, ts.drop_last(), fuel) {
            Ok(a) => match type_size(types, consts, locals, ts.last(), fuel) {
                Ok(b) => Ok(if a >= b { a } else { b }),
                Err(e) => Err(e),
            },
            Err(e) => Err(e),
        }
    }
}

/// Each parameter bound to the size of its argument.
pub open spec fn bind_sizes(
    types: Map<Seq<char>, Type>,
    consts: Map<Seq<char>, ConstExpr>,
    locals: Seq<(Seq<char>, nat)>,
    ps: Seq<String>,
    args: Seq<Type>,
    fuel: nat,
) -> Result<Seq<(Seq<char>, nat)>, Error>
    decreases fuel, args.len() + 1,
{
    if args.len() == 0 || ps.len() < args.len() {
        Ok(Seq::empty())
    } else {
        let k = args.len() - 1;
        match bind_sizes(types, consts, locals, ps, args.drop_last(), fuel) {
            Ok(a) => match type_size(types, consts, locals, args.last(), fuel) {
                Ok(b) => Ok(a.push((ps[k]@, b))),
                Err(e) => Err(e),
            },
            Err(e) => Err(e),
        }
    }
}

/// More fuel does not change a size that could already be computed.
pub proof fn lemma_size_fuel(
    types: Map<Seq<char>, Type>,
    consts: Map<Seq<char>, ConstExpr>,
    locals: Seq<(Seq<char>, nat)>,
    t: Type,
    f1: nat,
    f2: nat,
)
    requires
        f1 <= f2,
        type_size(types, consts, locals, t, f1) is Ok,
    ensures
        type_size(types, consts, locals, t, f2) == type_size(types, consts, locals, t, f1),
    decreases f1, 0nat,
{
    if f1 > 0 {
        let (g1, g2) = ((f1 - 1) as nat, (f2 - 1) as nat);
        match t {
            Type::Array(elem, _) => lemma_size_fuel(types, consts, locals, *elem, g1, g2),
            Type::Tuple(ts) => lemma_sum_fuel(types, consts, locals, ts@, g1, g2),
            Type::Struct(fs) => lemma_sum_fuel(types, consts, locals, field_types(fs@), g1, g2),
            Type::EnumUnion(vs) => lemma_max_fuel(types, consts, locals, field_types(vs@), g1, g2),
            Type::Unit(_, inner) => lemma_size_fuel(types, consts, locals, *inner, g1, g2),
            Type::Symbol(name) => {
                if lookup_local(locals, name@) is None && types.contains_key(name@) {
                    lemma_size_fuel(types, consts, Seq::empty(), types[name@], g1, g2);
                }
            },
            Type::Apply(head, args) => {
                if let Some((ps, body, inline)) = poly_of(types, *head) {
                    if ps.len() == args@.len() {
                        lemma_bind_fuel(types, consts, locals, ps, args@, g1, g2);
                        let bound = bind_sizes(types, consts, locals, ps, args@, g1)->Ok_0;
                        let inner = if inline {
                            locals + bound
                        } else {
                            bound
                        };
                        lemma_size_fuel(types, consts, inner, body, g1, g2);
                    }
                }
            },
            Type::Let(name, bind, body) => {
                lemma_size_fuel(types, consts, locals, *bind, g1, g2);
                let n = type_size(types, consts, locals, *bind, g1)->Ok_0;
                lemma_size_fuel(types, consts, locals.push((name@, n)), *body, g1, g2);
            },
            _ => {},
        }
    }
}

proof fn lemma_sum_fuel(
    types: Map<Seq<char>, Type>,
    consts: Map<Seq<char>, ConstExpr>,
    locals: Seq<(Seq<char>, nat)>,
    ts: Seq<Type>,
    f1: nat,
    f2: nat,
)
    requires
        f1 <= f2,
        sum_sizes(types, consts, locals, ts, f1) is Ok,
    ensures
        sum_sizes(types, consts, locals, ts, f2) == sum_sizes(types, consts, locals, ts, f1),
    decreases f1, ts.len() + 1,
{
    if ts.len() > 0 {
        lemma_sum_fuel(types, consts, locals, ts.drop_last(), f1, f2);
        lemma_size_fuel(types, consts, locals, ts.last(), f1, f2);
    }
}

proof fn lemma_max_fuel(
    types: Map<Seq<char>, Type>,
    consts: Map<Seq<char>, ConstExpr>,
    locals: Seq<(Seq<char>, nat)>,
    ts: Seq<Type>,
    f1: nat,
    f2: nat,
)
    requires
        f1 <= f2,
        max_size(types, consts, locals, ts, f1) is Ok,
    ensures
        max_size(types, consts, locals, ts, f2) == max_size(types, consts, locals, ts, f1),
    decreases f1, ts.len() + 1,
{
    if ts.len() > 0 {
        lemma_max_fuel(types, consts, locals, ts.drop_last(), f1, f2);
        lemma_size_fuel(types, consts, locals, ts.last(), f1, f2);
    }
}

proof fn lemma_bind_fuel(
    types: Map<Seq<char>, Type>,
    consts: Map<Seq<char>, ConstExpr>,
    locals: Seq<(Seq<char>, nat)>,
    ps: Seq<String>,
    args: Seq<Type>,
    f1: nat,
    f2: nat,
)
    requires
        f1 <= f2,
        bind_sizes(types, consts, locals, ps, args, f1) is Ok,
    ensures
        bind_sizes(types, consts, locals, ps, args, f2) == bind_sizes(types, consts, locals, ps, args, f1),
    decreases f1, args.len() + 1,
{
    if args.len() > 0 && ps.len() >= args.len() {
        lemma_bind_fuel(types, consts, locals, ps, args.drop_last(), f1, f2);
        lemma_size_fuel(types, consts, locals, args.last(), f1, f2);
    }
}

/// The size of a type, at the depth `get_size` works to.
pub open spec fn sized(types: Map<Seq<char>, Type>, consts: Map<Seq<char>, ConstExpr>, t: Type) -> Result<nat, Error> {
    type_size(types, consts, Seq::empty(), t, SIZE_FUEL as nat)
}

/// Where a structure of two fields has a size, it is the sum of the sizes
/// of its fields.
pub proof fn lemma_sized_struct(types: Map<Seq<char>, Type>, consts: Map<Seq<char>, ConstExpr>, fs: Vec<(String, Type)>)
    requires
        fs@.len() == 2,
        sized(types, consts, Type::Struct(fs)) is Ok,
    ensures
        sized(types, consts, fs@[0].1) is Ok,
        sized(types, consts, fs@[1].1) is Ok,
        sized(types, consts, Type::Struct(fs))->Ok_0 == sized(types, consts, fs@[0].1)->Ok_0 + sized(
            types,
            consts,
            fs@[1].1,
        )->Ok_0,
{
    let f = (SIZE_FUEL - 1) as nat;
    let e = Seq::<(Seq<char>, nat)>::empty();
    let ts = field_types(fs@);
    assert(ts.drop_last().drop_last() =~= Seq::<Type>::empty());
    assert(ts.drop_last().last() == fs@[0].1);
    assert(ts.last() == fs@[1].1);
    assert(sum_sizes(types, consts, e, ts, f) is Ok);
    assert(sum_sizes(types, consts, e, ts.drop_last(), f) is Ok);
    lemma_size_fuel(types, consts, e, fs@[0].1, f, SIZE_FUEL as nat);
    lemma_size_fuel(types, consts, e, fs@[1].1, f, SIZE_FUEL as nat);
    let a = type_size(types, consts, e, fs@[0].1, f)->Ok_0;
    let b = type_size(types, consts, e, fs@[1].1, f)->Ok_0;
    assert(sum_sizes(types, consts, e, ts.drop_last().drop_last(), f) == Ok::<nat, Error>(0));
    assert(sum_sizes(types, consts, e, ts.drop_last(), f) == Ok::<nat, Error>(a));
    assert(sum_sizes(types, consts, e, ts, f) == Ok::<nat, Error>(a + b));
    assert(sized(types, consts, Type::Struct(fs)) == sum_sizes(types, consts, e, ts, f));
}

/// Where an array of `n` elements has a size, it is `n` times the size of
/// its element.
pub proof fn lemma_sized_array(
    types: Map<Seq<char>, Type>,
    consts: Map<Seq<char>, ConstExpr>,
    elem: Box<Type>,
    len: Box<ConstExpr>,
    n: i64,
)
    requires
        *len == ConstExpr::Int(n),
        sized(types, consts, Type::Array(elem, len)) is Ok,
    ensures
        n >= 0,
        sized(types, consts, *elem) is Ok,
        sized(types, consts, Type::Array(elem, len))->Ok_0 == n * sized(types, consts, *elem)->Ok_0,
{
    let f = (SIZE_FUEL - 1) as nat;
    lemma_size_fuel(types, consts, Seq::empty(), *elem, f, SIZE_FUEL as nat);
}

/// Where a tagged union has a size, it is one tag cell more than the largest
/// size of its payloads.
pub proof fn lemma_sized_union(types: Map<Seq<char>, Type>, consts: Map<Seq<char>, ConstExpr>, vs: Vec<(String, Type)>)
    requires
        vs@.len() > 0,
        sized(types, consts, Type::EnumUnion(vs)) is Ok,
    ensures
        forall|i: int| 0 <= i < vs@.len() ==> (#[trigger] sized(types, consts, vs@[i].1)) is Ok,
        forall|i: int|
            0 <= i < vs@.len() ==> 1 + #[trigger] sized(types, consts, vs@[i].1)->Ok_0 <= sized(
                types,
                consts,
                Type::EnumUnion(vs),
            )->Ok_0,
        exists|i: int|
            0 <= i < vs@.len() && 1 + #[trigger] sized(types, consts, vs@[i].1)->Ok_0 == sized(
                types,
                consts,
                Type::EnumUnion(vs),
            )->Ok_0,
{
    let f = (SIZE_FUEL - 1) as nat;
    let e = Seq::<(Seq<char>, nat)>::empty();
    let ts = field_types(vs@);
    assert(max_size(types, consts, e, ts, f) is Ok);
    lemma_max_parts_sized(types, consts, e, ts, f);
    assert forall|i: int| 0 <= i < vs@.len() implies (#[trigger] sized(types, consts, vs@[i].1)) is Ok
        && sized(types, consts, vs@[i].1) == type_size(types, consts, e, vs@[i].1, f) by {
        assert(ts[i] == vs@[i].1);
        lemma_size_fuel(types, consts, e, vs@[i].1, f, SIZE_FUEL as nat);
    }
    lemma_max_size_is_max(types, consts, e, ts, f);
    let m = max_size(types, consts, e, ts, f)->Ok_0;
    let j = choose|j: int| 0 <= j < ts.len() && #[trigger] type_size(types, consts, e, ts[j], f)->Ok_0 == m;
    assert(ts[j] == vs@[j].1);
    assert(sized(types, consts, vs@[j].1)->Ok_0 == m);
    assert forall|i: int| 0 <= i < vs@.len() implies 1 + #[trigger] sized(types, consts, vs@[i].1)->Ok_0
        <= sized(types, consts, Type::EnumUnion(vs))->Ok_0 by {
        assert(ts[i] == vs@[i].1);
        assert(sized(types, consts, vs@[i].1) == type_size(types, consts, e, vs@[i].1, f));
    }
}

/// Where the largest of some sizes is known, each of them is.
proof fn lemma_max_parts_sized(
    types: Map<Seq<char>, Type>,
    consts: Map<Seq<char>, ConstExpr>,
    locals: Seq<(Seq<char>, nat)>,
    ts: Seq<Type>,
    fuel: nat,
)
    requires
        max_size(types, consts, locals, ts, fuel) is Ok,
    ensures
        forall|i: int| 0 <= i < ts.len() ==> (#[trigger] type_size(types, consts, locals, ts[i], fuel)) is Ok,
    decreases ts.len(),
{
    if ts.len() > 0 {
        lemma_max_parts_sized(types, consts, locals, ts.drop_last(), fuel);
        assert forall|i: int| 0 <= i < ts.len() implies (#[trigger] type_size(
            types,
            consts,
            locals,
            ts[i],
            fuel,
        )) is Ok by {
            if i < ts.len() - 1 {
                assert(ts.drop_last()[i] == ts[i]);
            }
        }
    }
}

/// A structure of two fields is as large as its two fields together.
pub proof fn lemma_struct_size_additive(
    types: Map<Seq<char>, Type>,
    consts: Map<Seq<char>, ConstExpr>,
    locals: Seq<(Seq<char>, nat)>,
    fs: Vec<(String, Type)>,
    fuel: nat,
)
    requires
        fs@.len() == 2,
        type_size(types, consts, locals, fs@[0].1, fuel) is Ok,
        type_size(types, consts, locals, fs@[1].1, fuel) is Ok,
        type_size(types, consts, locals, fs@[0].1, fuel)->Ok_0 + type_size(
            types,
            consts,
            locals,
            fs@[1].1,
            fuel,
        )->Ok_0 <= usize::MAX,
    ensures
        type_size(types, consts, locals, Type::Struct(fs), fuel + 1) == Ok::<nat, Error>(
            type_size(types, consts, locals, fs@[0].1, fuel)->Ok_0 + type_size(
                types,
                consts,
                locals,
                fs@[1].1,
                fuel,
            )->Ok_0,
        ),
{
    let ts = field_types(fs@);
    assert(ts.drop_last().drop_last() =~= Seq::<Type>::empty());
    assert(ts.drop_last().last() == fs@[0].1);
    assert(ts.last() == fs@[1].1);
    let a = type_size(types, consts, locals, fs@[0].1, fuel)->Ok_0;
    let b = type_size(types, consts, locals, fs@[1].1, fuel)->Ok_0;
    assert(sum_sizes(types, consts, locals, ts.drop_last().drop_last(), fuel) == Ok::<nat, Error>(0));
    assert(sum_sizes(types, consts, locals, ts.drop_last(), fuel) == Ok::<nat, Error>(a));
    assert(sum_sizes(types, consts, locals, ts, fuel) == Ok::<nat, Error>(a + b));
    assert(type_size(types, consts, locals, Type::Struct(fs), fuel + 1) == sum_sizes(
        types,
        consts,
        locals,
        ts,
        fuel,
    ));
}

/// An array of `n` elements is `n` times as large as one element.
pub proof fn lemma_array_size_scales(
    types: Map<Seq<char>, Type>,
    consts: Map<Seq<char>, ConstExpr>,
    locals: Seq<(Seq<char>, nat)>,
    elem: Box<Type>,
    len: Box<ConstExpr>,
    n: i64,
    fuel: nat,
)
    requires
        *len == ConstExpr::Int(n),
        0 <= n <= usize::MAX,
        type_size(types, consts, locals, *elem, fuel) is Ok,
        n * type_size(types, consts, locals, *elem, fuel)->Ok_0 <= usize::MAX,
    ensures
        type_size(types, consts, locals, Type::Array(elem, len), fuel + 1) == Ok::<nat, Error>(
            (n * type_size(types, consts, locals, *elem, fuel)->Ok_0) as nat,
        ),
{
}

/// The largest of the sizes of some types, where each has a size, is one of
/// them and bounds them all.
pub proof fn lemma_max_size_is_max(
    types: Map<Seq<char>, Type>,
    consts: Map<Seq<char>, ConstExpr>,
    locals: Seq<(Seq<char>, nat)>,
    ts: Seq<Type>,
    fuel: nat,
)
    requires
        forall|i: int| 0 <= i < ts.len() ==> (#[trigger] type_size(types, consts, locals, ts[i], fuel)) is Ok,
    ensures
        max_size(types, consts, locals, ts, fuel) is Ok,
        forall|i: int|
            0 <= i < ts.len() ==> #[trigger] type_size(types, consts, locals, ts[i], fuel)->Ok_0
                <= max_size(types, consts, locals, ts, fuel)->Ok_0,
        ts.len() > 0 ==> exists|i: int|
            0 <= i < ts.len() && #[trigger] type_size(types, consts, locals, ts[i], fuel)->Ok_0
                == max_size(types, consts, locals, ts, fuel)->Ok_0,
        ts.len() == 0 ==> max_size(types, consts, locals, ts, fuel) == Ok::<nat, Error>(0),
    decreases ts.len(),
{
    if ts.len() > 0 {
        let init = ts.drop_last();
        assert forall|i: int| 0 <= i < init.len() implies (#[trigger] type_size(
            types,
            consts,
            locals,
            init[i],
            fuel,
        )) is Ok by {
            assert(init[i] == ts[i]);
        }
        lemma_max_size_is_max(types, consts, locals, init, fuel);
        let last = ts.len() - 1;
        assert(type_size(types, consts, locals, ts[last], fuel) is Ok);
        assert forall|i: int| 0 <= i < ts.len() implies #[trigger] type_size(
            types,
            consts,
            locals,
            ts[i],
            fuel,
        )->Ok_0 <= max_size(types, consts, locals, ts, fuel)->Ok_0 by {
            if i < last {
                assert(init[i] == ts[i]);
            }
        }
        let m = max_size(types, consts, locals, ts, fuel)->Ok_0;
        if m == type_size(types, consts, locals, ts[last], fuel)->Ok_0 {
        } else {
            let j = choose|j: int|
                0 <= j < init.len() && #[trigger] type_size(types, consts, locals, init[j], fuel)->Ok_0
                    == max_size(types, consts, locals, init, fuel)->Ok_0;
            assert(init[j] == ts[j]);
        }
    }
}

/// A tagged union is one tag cell larger than its largest payload.
pub proof fn lemma_union_size_is_tag_plus_max(
    types: Map<Seq<char>, Type>,
    consts: Map<Seq<char>, ConstExpr>,
    locals: Seq<(Seq<char>, nat)>,
    vs: Vec<(String, Type)>,
    fuel: nat,
)
    requires
        vs@.len() > 0,
        forall|i: int|
            0 <= i < vs@.len() ==> (#[trigger] type_size(types, consts, locals, vs@[i].1, fuel)) is Ok,
        forall|i: int|
            0 <= i < vs@.len() ==> #[trigger] type_size(types, consts, locals, vs@[i].1, fuel)->Ok_0
                < usize::MAX,
    ensures
        type_size(types, consts, locals, Type::EnumUnion(vs), fuel + 1) is Ok,
        ({
            let total = type_size(types, consts, locals, Type::EnumUnion(vs), fuel + 1)->Ok_0;
            &&& forall|i: int|
                0 <= i < vs@.len() ==> 1 + #[trigger] type_size(types, consts, locals, vs@[i].1, fuel)->Ok_0
                    <= total
            &&& exists|i: int|
                0 <= i < vs@.len() && 1 + #[trigger] type_size(
                    types,
                    consts,
                    locals,
                    vs@[i].1,
                    fuel,
                )->Ok_0 == total
        }),
{
    let ts = field_types(vs@);
    assert forall|i: int| 0 <= i < ts.len() implies (#[trigger] type_size(
        types,
        consts,
        locals,
        ts[i],
        fuel,
    )) is Ok by {
        assert(ts[i] == vs@[i].1);
    }
    lemma_max_size_is_max(types, consts, locals, ts, fuel);
    let m = max_size(types, consts, locals, ts, fuel)->Ok_0;
    let j = choose|j: int|
        0 <= j < ts.len() && #[trigger] type_size(types, consts, locals, ts[j], fuel)->Ok_0 == m;
    assert(ts[j] == vs@[j].1);
    assert forall|i: int| 0 <= i < vs@.len() implies 1 + #[trigger] type_size(
        types,
        consts,
        locals,
        vs@[i].1,
        fuel,
    )->Ok_0 <= 1 + m by {
        assert(ts[i] == vs@[i].1);
    }
}

/// The sizes bound to type parameters, as the specification sees them.
pub open spec fn locals_view(l: Seq<(String, usize)>) -> Seq<(Seq<char>, nat)> {
    l.map_values(|p: (String, usize)| (p.0@, p.1 as nat))
}

/// A computed size, as the specification sees it.
pub open spec fn size_result(r: Result<usize, Error>) -> Result<nat, Error> {
    match r {
        Ok(n) => Ok(n as nat),
        Err(e) => Err(e),
    }
}

pub open spec fn field_types(fs: Seq<(String, Type)>) -> Seq<Type> {
    fs.map_values(|p: (String, Type)| p.1)
}

fn find_local(locals: &Vec<(String, usize)>, n: usize, name: &String) -> (r: Option<usize>)
    requires
        n <= locals@.len(),
    ensures
        match r {
            Some(k) => lookup_local(locals_view(locals@.take(n as int)), name@) == Some(k as nat),
            None => lookup_local(locals_view(locals@.take(n as int)), name@) is None,
        },
    decreases n,
{
    proof {
        if n > 0 {
            assert(locals_view(locals@.take(n as int)).drop_last() =~= locals_view(
                locals@.take(n - 1),
            ));
        }
    }
    if n == 0 {
        None
    } else if locals[n - 1].0 == *name {
        Some(locals[n - 1].1)
    } else {
        find_local(locals, n - 1, name)
    }
}

fn checked_sum(a: usize, b: usize) -> (r: Result<usize, Error>)
    ensures
        size_result(r) == capped(a as nat + b as nat),
{
    if a <= usize::MAX - b {
        Ok(a + b)
    } else {
        Err(Error::SizeOverflow)
    }
}

fn checked_product(a: usize, b: usize) -> (r: Result<usize, Error>)
    ensures
        size_result(r) == capped(a as nat * b as nat),
{
    match a.checked_mul(b) {
        Some(p) => Ok(p),
        None => Err(Error::SizeOverflow),
    }
}

pub(crate) fn array_len(env: &Env, c: &ConstExpr) -> (r: Result<usize, Error>)
    ensures
        size_result(r) == array_length(env.const_table(), *c),
{
    let n = match c {
        ConstExpr::Int(n) => *n,
        ConstExpr::Symbol(s) => match env.get_const(s.as_str()) {
            Some(ConstExpr::Int(n)) => *n,
            Some(_) => {
                return Err(Error::InvalidArrayLength);
            },
            None => {
                return Err(Error::SymbolNotDefined(s.clone()));
            },
        },
        _ => {
            return Err(Error::InvalidArrayLength);
        },
    };
    if n < 0 {
        Err(Error::InvalidArrayLength)
    } else if n as u64 > usize::MAX as u64 {
        Err(Error::SizeOverflow)
    } else {
        Ok(n as usize)
    }
}

pub(crate) fn sum_types(
    ts: &Vec<Type>,
    n: usize,
    env: &Env,
    locals: &Vec<(String, usize)>,
    fuel: u32,
) -> (r: Result<usize, Error>)
    requires
        n <= ts@.len(),
    ensures
        size_result(r) == sum_sizes(
            env.type_table(),
            env.const_table(),
            locals_view(locals@),
            ts@.take(n as int),
            fuel as nat,
        ),
    decreases fuel, n + 1,
{
    proof {
        if n > 0 {
            assert(ts@.take(n as int).drop_last() =~= ts@.take(n - 1));
        }
    }
    if n == 0 {
        return Ok(0);
    }
    let a = match sum_types(ts, n - 1, env, locals, fuel) {
        Ok(a) => a,
        Err(e) => {
            return Err(e);
        },
    };
    let b = match size_in(&ts[n - 1], env, locals, fuel) {
        Ok(b) => b,
        Err(e) => {
            return Err(e);
        },
    };
    checked_sum(a, b)
}

pub(crate) fn sum_fields(
    fs: &Vec<(String, Type)>,
    n: usize,
    env: &Env,
    locals: &Vec<(String, usize)>,
    fuel: u32,
) -> (r: Result<usize, Error>)
    requires
        n <= fs@.len(),
    ensures
        size_result(r) == sum_sizes(
            env.type_table(),
            env.const_table(),
            locals_view(locals@),
            field_types(fs@).take(n as int),
            fuel as nat,
        ),
    decreases fuel, n + 1,
{
    proof {
        if n > 0 {
            assert(field_types(fs@).take(n as int).drop_last() =~= field_types(fs@).take(n - 1));
        }
    }
    if n == 0 {
        return Ok(0);
    }
    let a = match sum_fields(fs, n - 1, env, locals, fuel) {
        Ok(a) => a,
        Err(e) => {
            return Err(e);
        },
    };
    let b = match size_in(&fs[n - 1].1, env, locals, fuel) {
        Ok(b) => b,
        Err(e) => {
            return Err(e);
        },
    };
    checked_sum(a, b)
}

fn max_fields(
    fs: &Vec<(String, Type)>,
    n: usize,
    env: &Env,
    locals: &Vec<(String, usize)>,
    fuel: u32,
) -> (r: Result<usize, Error>)
    requires
        n <= fs@.len(),
    ensures
        size_result(r) == max_size(
            env.type_table(),
            env.const_table(),
            locals_view(locals@),
            field_types(fs@).take(n as int),
            fuel as nat,
        ),
    decreases fuel, n + 1,
{
    proof {
        if n > 0 {
            assert(field_types(fs@).take(n as int).drop_last() =~= field_types(fs@).take(n - 1));
        }
    }
    if n == 0 {
        return Ok(0);
    }
    let a = match max_fields(fs, n - 1, env, locals, fuel) {
        Ok(a) => a,
        Err(e) => {
            return Err(e);
        },
    };
    let b = match size_in(&fs[n - 1].1, env, locals, fuel) {
        Ok(b) => b,
        Err(e) => {
            return Err(e);
        },
    };
    Ok(if a >= b { a } else { b })
}

fn bind_args(
    ps: &Vec<String>,
    args: &Vec<Type>,
    n: usize,
    env: &Env,
    locals: &Vec<(String, usize)>,
    fuel: u32,
) -> (r: Result<Vec<(String, usize)>, Error>)
    requires
        n <= args@.len(),
        args@.len() <= ps@.len(),
    ensures
        match r {
            Ok(b) => bind_sizes(
                env.type_table(),
                env.const_table(),
                locals_view(locals@),
                ps@,
                args@.take(n as int),
                fuel as nat,
            ) == Ok::<Seq<(Seq<char>, nat)>, Error>(locals_view(b@)),
            Err(e) => bind_sizes(
                env.type_table(),
                env.const_table(),
                locals_view(locals@),
                ps@,
                args@.take(n as int),
                fuel as nat,
            ) == Err::<Seq<(Seq<char>, nat)>, Error>(e),
        },
    decreases fuel, n + 1,
{
    proof {
        if n > 0 {
            assert(args@.take(n as int).drop_last() =~= args@.take(n - 1));
        }
    }
    if n == 0 {
        let v: Vec<(String, usize)> = Vec::new();
        proof {
            assert(locals_view(v@) =~= Seq::<(Seq<char>, nat)>::empty());
        }
        return Ok(v);
    }
    let mut a = match bind_args(ps, args, n - 1, env, locals, fuel) {
        Ok(a) => a,
        Err(e) => {
            return Err(e);
        },
    };
    let b = match size_in(&args[n - 1], env, locals, fuel) {
        Ok(b) => b,
        Err(e) => {
            return Err(e);
        },
    };
    let ghost before = a@;
    a.push((ps[n - 1].clone(), b));
    proof {
        assert(locals_view(a@) =~= locals_view(before).push((ps@[n - 1]@, b as nat)));
    }
    Ok(a)
}

fn copy_locals(locals: &Vec<(String, usize)>) -> (r: Vec<(String, usize)>)
    ensures
        locals_view(r@) == locals_view(locals@),
{
    let mut r: Vec<(String, usize)> = Vec::new();
    for i in 0..locals.len()
        invariant
            locals_view(r@) == locals_view(locals@.take(i as int)),
    {
        r.push((locals[i].0.clone(), locals[i].1));
        proof {
            assert(locals_view(locals@.take(i + 1)) =~= locals_view(locals@.take(i as int)).push(
                (locals@[i as int].0@, locals@[i as int].1 as nat),
            ));
            assert(locals_view(r@) =~= locals_view(locals@.take(i + 1)));
        }
    }
    proof {
        assert(locals@.take(locals@.len() as int) =~= locals@);
    }
    r
}

fn size_in(t: &Type, env: &Env, locals: &Vec<(String, usize)>, fuel: u32) -> (r: Result<
    usize,
    Error,
>)
    ensures
        size_result(r) == type_size(
            env.type_table(),
            env.const_table(),
            locals_view(locals@),
            *t,
            fuel as nat,
        ),
    decreases fuel, 0nat,
{
    if fuel == 0 {
        return Err(Error::RecursionLimit);
    }
    let f = fuel - 1;
    match t {
        Type::Array(elem, len) => {
            let n = match array_len(env, len) {
                Ok(n) => n,
                Err(e) => {
                    return Err(e);
                },
            };
            match size_in(elem, env, locals, f) {
                Ok(s) => checked_product(n, s),
                Err(e) => Err(e),
            }
        },
        Type::Tuple(ts) => {
            proof {
                assert(ts@.take(ts@.len() as int) =~= ts@);
            }
            sum_types(ts, ts.len(), env, locals, f)
        },
        Type::Struct(fs) => {
            proof {
                assert(field_types(fs@).take(fs@.len() as int) =~= field_types(fs@));
            }
            sum_fields(fs, fs.len(), env, locals, f)
        },
        Type::EnumUnion(vs) => {
            proof {
                assert(field_types(vs@).take(vs@.len() as int) =~= field_types(vs@));
            }
            match max_fields(vs, vs.len(), env, locals, f) {
                Ok(m) => checked_sum(1, m),
                Err(e) => Err(e),
            }
        },
        Type::Unit(_, inner) => size_in(inner, env, locals, f),
        Type::Symbol(name) => {
            proof {
                assert(locals@.take(locals@.len() as int) =~= locals@);
            }
            match find_local(locals, locals.len(), name) {
                Some(n) => Ok(n),
                None => match env.get_type(name.as_str()) {
                    Some(def) => {
                        let none: Vec<(String, usize)> = Vec::new();
                        proof {
                            assert(locals_view(none@) =~= Seq::<(Seq<char>, nat)>::empty());
                        }
                        size_in(def, env, &none, f)
                    },
                    None => Err(Error::SymbolNotDefined(name.clone())),
                },
            }
        },
        Type::Poly(_, _) => Err(Error::UnsizedType),
        Type::Apply(head, args) => {
            let (ps, body, inline) = match &**head {
                Type::Poly(ps, body) => (ps, body, true),
                Type::Symbol(n) => match env.get_type(n.as_str()) {
                    Some(Type::Poly(ps, body)) => (ps, body, false),
                    _ => {
                        return Err(Error::InvalidMonomorphize);
                    },
                },
                _ => {
                    return Err(Error::InvalidMonomorphize);
                },
            };
            if ps.len() != args.len() {
                return Err(Error::ArityMismatch);
            }
            proof {
                assert(args@.take(args@.len() as int) =~= args@);
            }
            let bound = match bind_args(ps, args, args.len(), env, locals, f) {
                Ok(b) => b,
                Err(e) => {
                    return Err(e);
                },
            };
            if inline {
                let mut inner = copy_locals(locals);
                let mut bound = bound;
                let ghost (x, y) = (inner@, bound@);
                inner.append(&mut bound);
                proof {
                    assert(locals_view(inner@) =~= locals_view(x) + locals_view(y));
                }
                size_in(body, env, &inner, f)
            } else {
                size_in(body, env, &bound, f)
            }
        },
        Type::Let(name, bind, body) => {
            let n = match size_in(bind, env, locals, f) {
                Ok(n) => n,
                Err(e) => {
                    return Err(e);
                },
            };
            let mut inner = copy_locals(locals);
            let ghost x = inner@;
            inner.push((name.clone(), n));
            proof {
                assert(locals_view(inner@) =~= locals_view(x).push((name@, n as nat)));
            }
            size_in(body, env, &inner, f)
        },
        _ => Ok(1),
    }
}

impl Type {
    /// The size of this type in cells, with names resolved in `env`.
    pub fn get_size(&self, env: &Env) -> (r: Result<usize, Error>)
        ensures
            size_result(r) == sized(env.type_table(), env.const_table(), *self),
    {
        let none: Vec<(String, usize)> = Vec::new();
        proof {
            assert(locals_view(none@) =~= Seq::<(Seq<char>, nat)>::empty());
        }
        size_in(self, env, &none, SIZE_FUEL)
    }
}

} // verus!
