//! Memoized specialization of a procedure with type parameters: each tuple
//! of type arguments, up to type equality, gets one label.
use crate::env::Env;
use crate::equality::{lists_equal, EQ_FUEL};
use crate::error::Error;
use crate::lir::{ConstExpr, Type};
use std::rc::Rc;
use vstd::prelude::*;

verus! {

/// The specializations of one procedure with type parameters made so far.
pub struct MonoCache {
    /// How many type parameters the procedure has.
    pub arity: usize,
    /// Each tuple of type arguments specialized so far, with its label.
    pub entries: Vec<(Rc<Vec<Type>>, usize)>,
    /// The label the next new specialization gets.
    pub next_label: usize,
}

/// Whether two tuples of type arguments are equal.
pub open spec fn same_args(
    types: Map<Seq<char>, Type>,
    consts: Map<Seq<char>, ConstExpr>,
    a: Seq<Type>,
    b: Seq<Type>,
) -> bool {
    lists_equal(types, consts, Seq::empty(), a, b, EQ_FUEL as nat)
}

/// The first entry whose type arguments equal `args`, among the first `n`.
pub open spec fn first_match(
    types: Map<Seq<char>, Type>,
    consts: Map<Seq<char>, ConstExpr>,
    entries: Seq<(Rc<Vec<Type>>, usize)>,
    args: Seq<Type>,
    n: int,
) -> Option<int>
    decreases n,
{
    if n <= 0 {
        None
    } else {
        match first_match(types, consts, entries, args, n - 1) {
            Some(k) => Some(k),
            None => if same_args(types, consts, entries[n - 1].0@, args) {
                Some(n - 1)
            } else {
                None
            },
        }
    }
}

/// What a cache holds, as the specification sees it.
pub ghost struct MonoModel {
    pub arity: usize,
    pub entries: Seq<(Rc<Vec<Type>>, usize)>,
    pub next_label: usize,
}

/// The model of a cache.
pub open spec fn mono_model(c: MonoCache) -> MonoModel {
    MonoModel { arity: c.arity, entries: c.entries@, next_label: c.next_label }
}

/// What specializing for `args` does to a cache: the label, and the cache after.
pub open spec fn mono_step(
    types: Map<Seq<char>, Type>,
    consts: Map<Seq<char>, ConstExpr>,
    cache: MonoModel,
    args: Rc<Vec<Type>>,
) -> Result<(usize, MonoModel), Error> {
    if args@.len() != cache.arity {
        Err(Error::ArityMismatch)
    } else {
        match first_match(types, consts, cache.entries, args@, cache.entries.len() as int) {
            Some(k) => Ok((cache.entries[k].1, cache)),
            None => if cache.next_label == usize::MAX {
                Err(Error::SizeOverflow)
            } else {
                Ok((cache.next_label, MonoModel {
                    arity: cache.arity,
                    entries: cache.entries.push((args, cache.next_label)),
                    next_label: (cache.next_label + 1) as usize,
                }))
            },
        }
    }
}

impl MonoCache {
    /// A cache for a procedure with `arity` type parameters, labelling its
    /// specializations from `first_label` on.
    pub fn new(arity: usize, first_label: usize) -> (r: MonoCache)
        ensures
            r.arity == arity,
            r.entries@.len() == 0,
            r.next_label == first_label,
    {
        MonoCache { arity, entries: Vec::new(), next_label: first_label }
    }

    /// The label of the specialization for `args`: the one already made for
    /// equal type arguments, or a new one.
    pub fn monomorphize(&mut self, args: &Rc<Vec<Type>>, env: &Env) -> (r: Result<usize, Error>)
        ensures
            match mono_step(env.type_table(), env.const_table(), mono_model(*old(self)), *args) {
                Ok((label, after)) => r == Ok::<usize, Error>(label) && mono_model(*final(self)) == after,
                Err(e) => r == Err::<usize, Error>(e) && *final(self) == *old(self),
            },
    {
        if args.len() != self.arity {
            return Err(Error::ArityMismatch);
        }
        let ghost types = env.type_table();
        let ghost consts = env.const_table();
        let mut i: usize = 0;
        while i < self.entries.len()
            invariant
                0 <= i <= self.entries@.len(),
                *self == *old(self),
                args@.len() == self.arity,
                types == env.type_table(),
                consts == env.const_table(),
                first_match(types, consts, self.entries@, args@, i as int) is None,
            decreases self.entries@.len() - i,
        {
            if same_list(&self.entries[i].0, args, env) {
                proof {
                    assert(first_match(types, consts, self.entries@, args@, i + 1) == Some(i as int));
                    lemma_first_match_stays(types, consts, self.entries@, args@, i + 1);
                }
                return Ok(self.entries[i].1);
            }
            i = i + 1;
        }
        if self.next_label == usize::MAX {
            return Err(Error::SizeOverflow);
        }
        let label = self.next_label;
        self.entries.push((Rc::clone(args), label));
        self.next_label = label + 1;
        Ok(label)
    }
}

/// Once an entry matches, later entries do not change the first match.
proof fn lemma_first_match_stays(
    types: Map<Seq<char>, Type>,
    consts: Map<Seq<char>, ConstExpr>,
    entries: Seq<(Rc<Vec<Type>>, usize)>,
    args: Seq<Type>,
    n: int,
)
    requires
        0 <= n <= entries.len(),
        first_match(types, consts, entries, args, n) is Some,
    ensures
        first_match(types, consts, entries, args, entries.len() as int) == first_match(
            types,
            consts,
            entries,
            args,
            n,
        ),
    decreases entries.len() - n,
{
    if n < entries.len() {
        lemma_first_match_stays(types, consts, entries, args, n + 1);
    }
}

fn same_list(a: &Vec<Type>, b: &Vec<Type>, env: &Env) -> (r: bool)
    ensures
        r == same_args(env.type_table(), env.const_table(), a@, b@),
{
    crate::equality::types_lists_equal(a, b, env)
}

/// Specializing twice for the same type arguments gives the same label,
/// and the second time leaves the cache as it was.
pub proof fn lemma_monomorphize_idempotent(
    types: Map<Seq<char>, Type>,
    consts: Map<Seq<char>, ConstExpr>,
    cache: MonoModel,
    args: Rc<Vec<Type>>,
    first: usize,
    after: MonoModel,
)
    requires
        mono_step(types, consts, cache, args) == Ok::<(usize, MonoModel), Error>((first, after)),
    ensures
        mono_step(types, consts, after, args) == Ok::<(usize, MonoModel), Error>((first, after)),
{
    let n = cache.entries.len() as int;
    match first_match(types, consts, cache.entries, args@, n) {
        Some(k) => {
            assert(after == cache);
        },
        None => {
            crate::equality::lemma_lists_equal_reflexive(types, consts, Seq::empty(), args@, EQ_FUEL as nat);
            assert(after.entries.subrange(0, n) =~= cache.entries);
            lemma_first_match_prefix(types, consts, cache.entries, after.entries, args@, n);
            assert(after.entries[n] == (args, first));
            assert(first_match(types, consts, after.entries, args@, n + 1) == Some(n));
            assert(after.arity == cache.arity);
        },
    }
}

/// The first match among the first `n` entries depends on those entries only.
proof fn lemma_first_match_prefix(
    types: Map<Seq<char>, Type>,
    consts: Map<Seq<char>, ConstExpr>,
    a: Seq<(Rc<Vec<Type>>, usize)>,
    b: Seq<(Rc<Vec<Type>>, usize)>,
    args: Seq<Type>,
    n: int,
)
    requires
        0 <= n <= a.len(),
        n <= b.len(),
        forall|i: int| 0 <= i < n ==> a[i] == b[i],
    ensures
        first_match(types, consts, a, args, n) == first_match(types, consts, b, args, n),
    decreases n,
{
    if n > 0 {
        lemma_first_match_prefix(types, consts, a, b, args, n - 1);
    }
}

} // verus!
