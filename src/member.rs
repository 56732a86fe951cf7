//! Where a member of a structure, tuple, array or tagged union lies inside
//! its value, in cells from the start.
use crate::env::Env;
use crate::error::Error;
use crate::lir::{ConstExpr, Type};
use crate::size::{field_types, size_result, sum_fields, sum_sizes, sum_types, type_size, SIZE_FUEL};
use vstd::prelude::*;

verus! {

/// The size of the types before position `k`, each sized as `get_size` does.
pub open spec fn prefix_size(types: Map<Seq<char>, Type>, consts: Map<Seq<char>, ConstExpr>, ts: Seq<Type>, k: int) -> Result<nat, Error> {
    sum_sizes(types, consts, Seq::empty(), ts.take(k), SIZE_FUEL as nat)
}

/// The position of the first field with a name, if any.
pub open spec fn field_index(fs: Seq<(String, Type)>, name: Seq<char>) -> Option<int>
    decreases fs.len(),
{
    if fs.len() == 0 {
        None
    } else {
        match field_index(fs.drop_last(), name) {
            Some(i) => Some(i),
            None => if fs.last().0@ == name {
                Some(fs.len() - 1)
            } else {
                None
            },
        }
    }
}

/// The offset and type of a member of a value of type `t`: a field of a
/// structure by name, an element of a tuple by position, an element of an
/// array by index, or the payload of a variant of a tagged union (after its
/// tag). Named types are resolved; units are seen through.
pub open spec fn member_offset(
    types: Map<Seq<char>, Type>,
    consts: Map<Seq<char>, ConstExpr>,
    t: Type,
    member: ConstExpr,
    fuel: nat,
) -> Result<(nat, Type), Error>
    decreases fuel,
{
    if fuel == 0 {
        Err(Error::RecursionLimit)
    } else {
        match (t, member) {
            (Type::Struct(fs), ConstExpr::Symbol(name)) => match field_index(fs@, name@) {
                Some(k) => match prefix_size(types, consts, field_types(fs@), k) {
                    Ok(off) => Ok((off, fs@[k].1)),
                    Err(e) => Err(e),
                },
                None => Err(Error::InvalidMember),
            },
            (Type::Tuple(ts), ConstExpr::Int(i)) => if 0 <= i < ts@.len() {
                match prefix_size(types, consts, ts@, i as int) {
                    Ok(off) => Ok((off, ts@[i as int])),
                    Err(e) => Err(e),
                }
            } else {
                Err(Error::InvalidMember)
            },
            (Type::Array(elem, _), ConstExpr::Int(i)) => if i < 0 {
                Err(Error::InvalidMember)
            } else {
                match type_size(types, consts, Seq::empty(), *elem, SIZE_FUEL as nat) {
                    Ok(s) => if i * s > usize::MAX {
                        Err(Error::SizeOverflow)
                    } else {
                        Ok(((i * s) as nat, *elem))
                    },
                    Err(e) => Err(e),
                }
            },
            (Type::EnumUnion(vs), ConstExpr::Symbol(name)) => match field_index(vs@, name@) {
                Some(k) => Ok((1, vs@[k].1)),
                None => Err(Error::InvalidMember),
            },
            (Type::Unit(_, inner), _) => member_offset(types, consts, *inner, member, (fuel - 1) as nat),
            (Type::Symbol(name), _) => if types.contains_key(name@) {
                member_offset(types, consts, types[name@], member, (fuel - 1) as nat)
            } else {
                Err(Error::SymbolNotDefined(name))
            },
            _ => Err(Error::InvalidMember),
        }
    }
}

fn find_field(fs: &Vec<(String, Type)>, name: &String) -> (r: Option<usize>)
    ensures
        match r {
            Some(k) => field_index(fs@, name@) == Some(k as int) && k < fs@.len(),
            None => field_index(fs@, name@) is None,
        },
{
    let mut i: usize = 0;
    while i < fs.len()
        invariant
            0 <= i <= fs@.len(),
            field_index(fs@.take(i as int), name@) is None,
        decreases fs@.len() - i,
    {
        proof {
            assert(fs@.take(i + 1).drop_last() =~= fs@.take(i as int));
        }
        if fs[i].0 == *name {
            proof {
                assert(field_index(fs@.take(i + 1), name@) == Some(i as int));
                lemma_field_index_stays(fs@, name@, i + 1);
            }
            return Some(i);
        }
        i = i + 1;
    }
    proof {
        assert(fs@.take(fs@.len() as int) =~= fs@);
    }
    None
}

proof fn lemma_field_index_stays(fs: Seq<(String, Type)>, name: Seq<char>, n: int)
    requires
        0 <= n <= fs.len(),
        field_index(fs.take(n), name) is Some,
    ensures
        field_index(fs, name) == field_index(fs.take(n), name),
    decreases fs.len() - n,
{
    if n < fs.len() {
        assert(fs.take(n + 1).drop_last() =~= fs.take(n));
        lemma_field_index_stays(fs, name, n + 1);
    } else {
        assert(fs.take(n) =~= fs);
    }
}

/// How deeply units and type names may nest around a member's owner.
pub const MEMBER_FUEL: u32 = 100;

impl Type {
    /// The offset in cells, and the type, of a member of a value of this type.
    pub fn get_member_offset<'a>(&'a self, member: &ConstExpr, env: &'a Env) -> (r: Result<(usize, &'a Type), Error>)
        ensures
            match member_offset(env.type_table(), env.const_table(), *self, *member, MEMBER_FUEL as nat) {
                Ok((off, t)) => r is Ok && r->Ok_0.0 == off && *r->Ok_0.1 == t,
                Err(e) => r == Err::<(usize, &Type), Error>(e),
            },
    {
        member_in(self, member, env, MEMBER_FUEL)
    }
}

fn member_in<'a>(t: &'a Type, member: &ConstExpr, env: &'a Env, fuel: u32) -> (r: Result<(usize, &'a Type), Error>)
    ensures
        match member_offset(env.type_table(), env.const_table(), *t, *member, fuel as nat) {
            Ok((off, m)) => r is Ok && r->Ok_0.0 == off && *r->Ok_0.1 == m,
            Err(e) => r == Err::<(usize, &Type), Error>(e),
        },
    decreases fuel,
{
    if fuel == 0 {
        return Err(Error::RecursionLimit);
    }
    let none: Vec<(String, usize)> = Vec::new();
    proof {
        assert(crate::size::locals_view(none@) =~= Seq::<(Seq<char>, nat)>::empty());
    }
    match (t, member) {
        (Type::Struct(fs), ConstExpr::Symbol(name)) => match find_field(fs, name) {
            Some(k) => {
                match sum_fields(fs, k, env, &none, SIZE_FUEL) {
                    Ok(off) => Ok((off, &fs[k].1)),
                    Err(e) => Err(e),
                }
            },
            None => Err(Error::InvalidMember),
        },
        (Type::Tuple(ts), ConstExpr::Int(i)) => {
            if *i < 0 || *i as u64 >= ts.len() as u64 {
                return Err(Error::InvalidMember);
            }
            let k = *i as usize;
            match sum_types(ts, k, env, &none, SIZE_FUEL) {
                Ok(off) => Ok((off, &ts[k])),
                Err(e) => Err(e),
            }
        },
        (Type::Array(elem, _), ConstExpr::Int(i)) => {
            if *i < 0 {
                return Err(Error::InvalidMember);
            }
            match elem.get_size(env) {
                Ok(s) => match (*i as u128).checked_mul(s as u128) {
                    Some(p) => if p > usize::MAX as u128 {
                        Err(Error::SizeOverflow)
                    } else {
                        Ok((p as usize, &**elem))
                    },
                    None => Err(Error::SizeOverflow),
                },
                Err(e) => Err(e),
            }
        },
        (Type::EnumUnion(vs), ConstExpr::Symbol(name)) => match find_field(vs, name) {
            Some(k) => Ok((1, &vs[k].1)),
            None => Err(Error::InvalidMember),
        },
        (Type::Unit(_, inner), _) => member_in(inner, member, env, fuel - 1),
        (Type::Symbol(name), _) => match env.get_type(name.as_str()) {
            Some(def) => member_in(def, member, env, fuel - 1),
            None => Err(Error::SymbolNotDefined(name.clone())),
        },
        _ => Err(Error::InvalidMember),
    }
}

} // verus!
