//! Pattern matching over tagged unions: the tag of each variant, and
//! whether a set of match arms covers every value.
use crate::lir::{Pattern, Type};
use vstd::prelude::*;

verus! {

/// Whether one name comes before another in lexicographic order of characters.
pub open spec fn name_less(a: Seq<char>, b: Seq<char>) -> bool
    decreases a.len(),
{
    if a.len() == 0 {
        b.len() > 0
    } else if b.len() == 0 {
        false
    } else if a[0] != b[0] {
        (a[0] as u32) < (b[0] as u32)
    } else {
        name_less(a.drop_first(), b.drop_first())
    }
}

/// How many of the first `n` variants have names before `name`.
pub open spec fn names_before(vs: Seq<(String, Type)>, name: Seq<char>, n: int) -> nat
    decreases n,
{
    if n <= 0 {
        0
    } else {
        names_before(vs, name, n - 1) + if name_less(vs[n - 1].0@, name) {
            1nat
        } else {
            0nat
        }
    }
}

/// Whether a tagged union has a variant of a name.
pub open spec fn has_variant(vs: Seq<(String, Type)>, name: Seq<char>) -> bool {
    exists|i: int| 0 <= i < vs.len() && #[trigger] vs[i].0@ == name
}

fn less_from(a: &str, b: &str, i: usize, alen: usize, blen: usize) -> (r: bool)
    requires
        alen == a@.len(),
        blen == b@.len(),
        i <= alen,
        i <= blen,
    ensures
        r == name_less(a@.subrange(i as int, alen as int), b@.subrange(i as int, blen as int)),
    decreases alen - i,
{
    let ghost (x, y) = (a@.subrange(i as int, alen as int), b@.subrange(i as int, blen as int));
    if i == alen {
        return i < blen;
    }
    if i == blen {
        return false;
    }
    let c = a.get_char(i);
    let d = b.get_char(i);
    proof {
        assert(x[0] == c && y[0] == d);
        assert(x.drop_first() =~= a@.subrange(i + 1, alen as int));
        assert(y.drop_first() =~= b@.subrange(i + 1, blen as int));
    }
    if c != d {
        return (c as u32) < (d as u32);
    }
    less_from(a, b, i + 1, alen, blen)
}

/// Whether one name comes before another in lexicographic order.
pub fn name_before(a: &str, b: &str) -> (r: bool)
    ensures
        r == name_less(a@, b@),
{
    let alen = a.unicode_len();
    let blen = b.unicode_len();
    proof {
        assert(a@.subrange(0, alen as int) =~= a@);
        assert(b@.subrange(0, blen as int) =~= b@);
    }
    less_from(a, b, 0, alen, blen)
}

/// The tag of a variant of a tagged union: the number of its variants whose
/// names come before the variant's name, so that tags do not depend on the
/// order the variants are written in.
pub fn variant_tag(vs: &Vec<(String, Type)>, name: &str) -> (r: Option<usize>)
    ensures
        has_variant(vs@, name@) <==> r is Some,
        r is Some ==> r->0 == names_before(vs@, name@, vs@.len() as int),
{
    let mut count: usize = 0;
    let mut found = false;
    let mut i: usize = 0;
    while i < vs.len()
        invariant
            0 <= i <= vs@.len(),
            count == names_before(vs@, name@, i as int),
            count <= i,
            found <==> exists|j: int| 0 <= j < i && #[trigger] vs@[j].0@ == name@,
        decreases vs@.len() - i,
    {
        if name_before(vs[i].0.as_str(), name) {
            count = count + 1;
        }
        if same_text(vs[i].0.as_str(), name) {
            found = true;
        }
        i = i + 1;
    }
    if found {
        Some(count)
    } else {
        None
    }
}

fn same_text(a: &str, b: &str) -> (r: bool)
    ensures
        r == (a@ == b@),
{
    let n = a.unicode_len();
    if n != b.unicode_len() {
        return false;
    }
    let mut i: usize = 0;
    while i < n
        invariant
            n == a@.len(),
            n == b@.len(),
            0 <= i <= n,
            forall|j: int| 0 <= j < i ==> a@[j] == b@[j],
        decreases n - i,
    {
        if a.get_char(i) != b.get_char(i) {
            return false;
        }
        i = i + 1;
    }
    assert(a@ =~= b@);
    true
}

/// Whether a pattern matches every value: a wildcard or a binding, or an
/// alternative with one.
pub open spec fn irrefutable(p: Pattern) -> bool
    decreases p, 0nat,
{
    match p {
        Pattern::Wildcard | Pattern::Symbol(_, _) => true,
        Pattern::Alt(ps) => any_irrefutable(ps@),
        _ => false,
    }
}

pub open spec fn any_irrefutable(ps: Seq<Pattern>) -> bool
    decreases ps, 1nat,
{
    if ps.len() == 0 {
        false
    } else {
        any_irrefutable(ps.subrange(0, ps.len() - 1)) || irrefutable(ps[ps.len() - 1])
    }
}

/// Whether a pattern matches every value of the variant of a tagged union
/// with a name.
pub open spec fn covers(p: Pattern, name: Seq<char>) -> bool
    decreases p, 0nat,
{
    match p {
        Pattern::Wildcard | Pattern::Symbol(_, _) => true,
        Pattern::Variant(v, None) => v@ == name,
        Pattern::Variant(v, Some(q)) => v@ == name && irrefutable(*q),
        Pattern::Alt(ps) => any_covers(ps@, name),
        _ => false,
    }
}

pub open spec fn any_covers(ps: Seq<Pattern>, name: Seq<char>) -> bool
    decreases ps, 1nat,
{
    if ps.len() == 0 {
        false
    } else {
        any_covers(ps.subrange(0, ps.len() - 1), name) || covers(ps[ps.len() - 1], name)
    }
}

/// Whether match arms with these patterns cover every variant of a tagged union.
pub open spec fn exhaustive(arms: Seq<Pattern>, vs: Seq<(String, Type)>) -> bool {
    forall|j: int| 0 <= j < vs.len() ==> #[trigger] any_covers(arms, vs[j].0@)
}

fn is_irrefutable(p: &Pattern) -> (r: bool)
    ensures
        r == irrefutable(*p),
    decreases p, 2nat, 0nat,
{
    match p {
        Pattern::Wildcard | Pattern::Symbol(_, _) => true,
        Pattern::Alt(ps) => {
            proof {
                assert(decreases_to!(*p => (*p)->Alt_0));
                assert(decreases_to!((*p)->Alt_0 => (*p)->Alt_0@));
                assert(ps@.subrange(0, ps@.len() as int) =~= ps@);
            }
            any_is_irrefutable(ps, ps.len(), Ghost(*p))
        },
        _ => false,
    }
}

fn any_is_irrefutable(ps: &Vec<Pattern>, n: usize, Ghost(owner): Ghost<Pattern>) -> (r: bool)
    requires
        n <= ps@.len(),
        owner == Pattern::Alt(*ps),
        decreases_to!(owner => ps@),
    ensures
        r == any_irrefutable(ps@.subrange(0, n as int)),
    decreases owner, 1nat, n,
{
    let ghost s = ps@.subrange(0, n as int);
    if n == 0 {
        return false;
    }
    proof {
        assert(s.subrange(0, s.len() - 1) =~= ps@.subrange(0, n - 1));
        assert(s[s.len() - 1] == ps@[n - 1]);
        assert(decreases_to!(ps@ => ps@[n - 1]));
    }
    if any_is_irrefutable(ps, n - 1, Ghost(owner)) {
        return true;
    }
    is_irrefutable(&ps[n - 1])
}

fn covers_variant(p: &Pattern, name: &str) -> (r: bool)
    ensures
        r == covers(*p, name@),
    decreases p, 2nat, 0nat,
{
    match p {
        Pattern::Wildcard | Pattern::Symbol(_, _) => true,
        Pattern::Variant(v, None) => same_text(v.as_str(), name),
        Pattern::Variant(v, Some(q)) => same_text(v.as_str(), name) && is_irrefutable(q),
        Pattern::Alt(ps) => {
            proof {
                assert(decreases_to!(*p => (*p)->Alt_0));
                assert(decreases_to!((*p)->Alt_0 => (*p)->Alt_0@));
                assert(ps@.subrange(0, ps@.len() as int) =~= ps@);
            }
            any_covers_variant(ps, ps.len(), name, Ghost(*p))
        },
        _ => false,
    }
}

fn any_covers_variant(ps: &Vec<Pattern>, n: usize, name: &str, Ghost(owner): Ghost<Pattern>) -> (r: bool)
    requires
        n <= ps@.len(),
        owner == Pattern::Alt(*ps),
        decreases_to!(owner => ps@),
    ensures
        r == any_covers(ps@.subrange(0, n as int), name@),
    decreases owner, 1nat, n,
{
    let ghost s = ps@.subrange(0, n as int);
    if n == 0 {
        return false;
    }
    proof {
        assert(s.subrange(0, s.len() - 1) =~= ps@.subrange(0, n - 1));
        assert(s[s.len() - 1] == ps@[n - 1]);
        assert(decreases_to!(ps@ => ps@[n - 1]));
    }
    if any_covers_variant(ps, n - 1, name, Ghost(owner)) {
        return true;
    }
    covers_variant(&ps[n - 1], name)
}

/// Whether match arms with these patterns cover every variant of a tagged
/// union, so that the match needs no default.
pub fn is_exhaustive(arms: &Vec<Pattern>, vs: &Vec<(String, Type)>) -> (r: bool)
    ensures
        r == exhaustive(arms@, vs@),
{
    let mut j: usize = 0;
    while j < vs.len()
        invariant
            0 <= j <= vs@.len(),
            forall|k: int| 0 <= k < j ==> #[trigger] any_covers(arms@, vs@[k].0@),
        decreases vs@.len() - j,
    {
        let mut found = false;
        let mut i: usize = 0;
        while i < arms.len()
            invariant
                0 <= i <= arms@.len(),
                j < vs@.len(),
                found == any_covers(arms@.subrange(0, i as int), vs@[j as int].0@),
            decreases arms@.len() - i,
        {
            proof {
                assert(arms@.subrange(0, i + 1).subrange(0, i as int) =~= arms@.subrange(0, i as int));
            }
            if !found && covers_variant(&arms[i], vs[j].0.as_str()) {
                found = true;
            }
            i = i + 1;
        }
        proof {
            assert(arms@.subrange(0, arms@.len() as int) =~= arms@);
        }
        if !found {
            return false;
        }
        j = j + 1;
    }
    true
}

} // verus!
