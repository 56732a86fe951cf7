//! The core instructions of the virtual machine, and the flattening of nested
//! function definitions into one program addressable by function id.
use std::collections::HashMap;
use vstd::multiset::Multiset;
use vstd::prelude::*;

verus! {

broadcast use vstd::std_specs::hash::group_hash_axioms;

/// Where an input instruction reads from.
#[derive(Clone, Copy, Debug, PartialEq, Eq, Hash)]
pub enum InputMode {
    StdinChar,
    StdinInt,
    StdinFloat,
    Custom(i64),
}

/// An input channel, with an optional argument for the device.
#[derive(Clone, Copy, Debug, PartialEq, Eq, Hash)]
pub struct Input {
    pub mode: InputMode,
    pub arg: Option<i64>,
}

/// Where an output instruction writes to.
#[derive(Clone, Copy, Debug, PartialEq, Eq, Hash)]
pub enum OutputMode {
    StdoutChar,
    StderrChar,
    StdoutInt,
    StderrInt,
    StdoutFloat,
    StderrFloat,
    Custom(i64),
}

/// An output channel, with an optional argument for the device.
#[derive(Clone, Copy, Debug, PartialEq, Eq, Hash)]
pub struct Output {
    pub mode: OutputMode,
    pub arg: Option<i64>,
}

/// An individual core virtual machine instruction.
#[derive(Clone, Debug, PartialEq, Eq, Hash)]
pub enum CoreOp {
    /// A comment in the machine code; it does nothing when run.
    Comment(String),
    /// Set the register to constant values.
    SetRegister(Vec<i64>),
    /// Open a function definition; its body runs only when called.
    Function,
    /// Call the function whose id is in the register.
    Call,
    /// Return from the current function.
    Return,
    /// Begin a "while the register is not zero" loop.
    While,
    /// Begin an "if the register is not zero" conditional.
    If,
    /// Switch to the other branch of the nearest conditional.
    Else,
    /// Close the nearest open scope.
    End,
    /// Store the register to the cells pointed to on the tape.
    Store(usize),
    /// Load the cells pointed to on the tape into the register.
    Load(usize),
    /// Move the tape pointer by a number of cells.
    Move(isize),
    /// Store the value of the pointer to the register.
    Where,
    /// Make the pointer equal to the value it points to.
    Deref,
    /// Undo the last `Deref`.
    Refer,
    /// Make the pointer equal to the register plus the value pointed to.
    Index,
    /// Bitwise nand of the register and the value pointed to.
    BitwiseNand,
    /// Add the value pointed to on the tape to the register.
    Add,
    /// Subtract the value pointed to on the tape from the register.
    Sub,
    /// Multiply the register by the value pointed to on the tape.
    Mul,
    /// Divide the register by the value pointed to on the tape.
    Div,
    /// The remainder of the register by the value pointed to on the tape.
    Rem,
    /// Set the register to 1 if it is non-negative, else to 0.
    IsNonNegative,
    /// Read a value from an input channel into the register.
    Get(Input),
    /// Write the register to an output channel.
    Put(Output),
}

/// The state of a walk over a program while flattening it.
pub ghost struct FlatState {
    /// The id of the function being defined; -1 is the main program.
    pub fun: int,
    /// The scopes opened by `If` or `While` and not yet closed in this function.
    pub open: int,
    /// The (function, open scopes) to resume for each enclosing definition.
    pub saved: Seq<(int, int)>,
    /// The body collected so far for each function id.
    pub functions: Map<int, Seq<CoreOp>>,
}

pub open spec fn body_of(fns: Map<int, Seq<CoreOp>>, id: int) -> Seq<CoreOp> {
    if fns.contains_key(id) {
        fns[id]
    } else {
        Seq::empty()
    }
}

pub open spec fn append_to(fns: Map<int, Seq<CoreOp>>, id: int, op: CoreOp) -> Map<int, Seq<CoreOp>> {
    fns.insert(id, body_of(fns, id).push(op))
}

/// One step of the walk: `None` where an `End` closes no scope at all.
pub open spec fn flatten_step(st: FlatState, op: CoreOp) -> Option<FlatState> {
    match op {
        CoreOp::Function => {
            let next = if st.functions.contains_key(st.fun + 1) {
                st.functions.len() as int
            } else {
                st.fun + 1
            };
            Some(
                FlatState {
                    fun: next,
                    open: 0,
                    saved: st.saved.push((st.fun, st.open)),
                    functions: append_to(st.functions, next, op),
                },
            )
        },
        CoreOp::If | CoreOp::While => Some(
            FlatState {
                fun: st.fun,
                open: st.open + 1,
                saved: st.saved,
                functions: append_to(st.functions, st.fun, op),
            },
        ),
        CoreOp::End => if st.open > 0 {
            Some(
                FlatState {
                    fun: st.fun,
                    open: st.open - 1,
                    saved: st.saved,
                    functions: append_to(st.functions, st.fun, op),
                },
            )
        } else if st.saved.len() == 0 {
            None
        } else {
            Some(
                FlatState {
                    fun: st.saved.last().0,
                    open: st.saved.last().1,
                    saved: st.saved.drop_last(),
                    functions: append_to(st.functions, st.fun, op),
                },
            )
        },
        _ => Some(
            FlatState {
                fun: st.fun,
                open: st.open,
                saved: st.saved,
                functions: append_to(st.functions, st.fun, op),
            },
        ),
    }
}

pub open spec fn flatten_start() -> FlatState {
    FlatState { fun: -1, open: 0, saved: Seq::empty(), functions: Map::empty() }
}

/// The walk over a whole program, or `None` where some `End` closes nothing.
pub open spec fn flatten_walk(code: Seq<CoreOp>) -> Option<FlatState>
    decreases code.len(),
{
    if code.len() == 0 {
        Some(flatten_start())
    } else {
        match flatten_walk(code.drop_last()) {
            Some(st) => flatten_step(st, code.last()),
            None => None,
        }
    }
}

/// Every `End` of the program closes a scope that is open.
pub open spec fn well_scoped(code: Seq<CoreOp>) -> bool {
    flatten_walk(code) is Some
}

/// The function bodies of a well-scoped program, by id (-1 is the main program).
pub open spec fn function_bodies(code: Seq<CoreOp>) -> Map<int, Seq<CoreOp>> {
    flatten_walk(code)->0.functions
}

/// The bodies of the functions with ids `0 .. n`, in ascending order.
pub open spec fn bodies_below(fns: Map<int, Seq<CoreOp>>, n: int) -> Seq<CoreOp>
    decreases n,
{
    if n <= 0 {
        Seq::empty()
    } else {
        bodies_below(fns, n - 1) + body_of(fns, n - 1)
    }
}

/// The flat program: every function body in ascending id, then the main program.
pub open spec fn flat_code(fns: Map<int, Seq<CoreOp>>) -> Seq<CoreOp> {
    bodies_below(fns, fns.len() + 1 as int) + body_of(fns, -1)
}

/// What the walk keeps true: every id in use lies in `-1 .. len`, and the
/// function being defined and those saved are in use (or the main program).
pub open spec fn flat_state_inv(st: FlatState, steps: int) -> bool {
    &&& st.functions.dom().finite()
    &&& st.functions.len() <= steps
    &&& forall|k: int| #[trigger] st.functions.contains_key(k) ==> -1 <= k < st.functions.len()
    &&& -1 <= st.fun < st.functions.len() || st.fun == -1
    &&& (st.fun != -1 ==> st.functions.contains_key(st.fun))
    &&& (st.saved.len() == 0 <==> st.fun == -1)
    &&& forall|i: int|
        0 <= i < st.saved.len() ==> {
            let f = #[trigger] st.saved[i].0;
            &&& (i == 0 ==> f == -1)
            &&& (i > 0 ==> 0 <= f < st.functions.len() && st.functions.contains_key(f))
            &&& 0 <= st.saved[i].1 <= steps
        }
    &&& 0 <= st.open <= steps
}

/// The table of a program in the executable form matches its model.
pub open spec fn table_matches(table: Map<i32, Vec<CoreOp>>, fns: Map<int, Seq<CoreOp>>) -> bool {
    &&& forall|k: i32| #[trigger] table.contains_key(k) <==> fns.contains_key(k as int)
    &&& forall|k: i32| #[trigger] table.contains_key(k) ==> table[k]@ == fns[k as int]
    &&& table.len() == fns.len()
}


/// A walk that succeeds on a program succeeds on each of its prefixes.
pub proof fn lemma_walk_prefix(code: Seq<CoreOp>, n: int)
    requires
        well_scoped(code),
        0 <= n <= code.len(),
    ensures
        well_scoped(code.take(n)),
    decreases code.len() - n,
{
    if n < code.len() {
        lemma_walk_prefix(code, n + 1);
        assert(code.take(n + 1).drop_last() =~= code.take(n));
    } else {
        assert(code.take(n) =~= code);
    }
}

/// Each step of the walk keeps its invariant.
proof fn lemma_step_inv(st: FlatState, op: CoreOp, steps: int)
    requires
        flat_state_inv(st, steps),
        flatten_step(st, op) is Some,
    ensures
        flat_state_inv(flatten_step(st, op)->0, steps + 1),
{
    let nx = flatten_step(st, op)->0;
    let id = match op {
        CoreOp::Function => nx.fun,
        _ => st.fun,
    };
    assert(nx.functions == append_to(st.functions, id, op));
    assert(nx.functions.dom() == st.functions.dom().insert(id));
    if st.functions.contains_key(id) {
        assert(st.functions.dom().insert(id) =~= st.functions.dom());
    }
    assert(st.functions.len() <= nx.functions.len());
    assert forall|i: int| 0 <= i < nx.saved.len() implies {
        let f = #[trigger] nx.saved[i].0;
        &&& (i == 0 ==> f == -1)
        &&& (i > 0 ==> 0 <= f < nx.functions.len() && nx.functions.contains_key(f))
        &&& 0 <= nx.saved[i].1 <= steps + 1
    } by {
        match op {
            CoreOp::Function => {
                if i < st.saved.len() {
                    assert(nx.saved[i] == st.saved[i]);
                } else {
                    assert(nx.saved[i] == (st.fun, st.open));
                    assert(st.fun != -1 ==> nx.functions.contains_key(st.fun));
                }
            },
            CoreOp::End => {
                if st.open == 0 {
                    assert(nx.saved[i] == st.saved[i]);
                } else {
                    assert(nx.saved[i] == st.saved[i]);
                }
            },
            _ => {
                assert(nx.saved[i] == st.saved[i]);
            },
        }
    }
    match op {
        CoreOp::End => {
            if st.open == 0 {
                let j = st.saved.len() - 1;
                assert(st.saved.last() == st.saved[j]);
            }
        },
        _ => {},
    }
}

/// Append `op` to the body of function `id`, creating the body if needed.
fn append_op(functions: &mut HashMap<i32, Vec<CoreOp>>, id: i32, op: CoreOp)
    ensures
        final(functions)@ == old(functions)@.insert(id, final(functions)@[id]),
        final(functions)@[id]@ == (if old(functions)@.contains_key(id) {
            old(functions)@[id]@
        } else {
            Seq::empty()
        }).push(op),
{
    let mut body = match functions.remove(&id) {
        Some(b) => b,
        None => Vec::new(),
    };
    body.push(op);
    functions.insert(id, body);
}

/// Walk a program and collect the body of each function, by id.
fn function_table(code: Vec<CoreOp>) -> (table: HashMap<i32, Vec<CoreOp>>)
    requires
        code@.len() < i32::MAX,
        well_scoped(code@),
    ensures
        table_matches(table@, function_bodies(code@)),
{
    let ghost total = code@;
    let mut functions: HashMap<i32, Vec<CoreOp>> = HashMap::new();
    // The function whose body is being collected; -1 is the main program.
    let mut fun: i32 = -1;
    // The `If` and `While` scopes still open in that function.
    let mut matching_end: i32 = 0;
    // The function and open scopes to resume after each nested definition.
    let mut scope_stack: Vec<(i32, i32)> = Vec::new();
    for op in it: code
        invariant
            it.seq() == total,
            total.len() < i32::MAX,
            well_scoped(total),
            ({
                let st = flatten_walk(total.take(it.index() as int))->0;
                &&& well_scoped(total.take(it.index() as int))
                &&& flat_state_inv(st, it.index() as int)
                &&& st.fun == fun as int
                &&& st.open == matching_end as int
                &&& st.saved.len() == scope_stack@.len()
                &&& forall|i: int|
                    0 <= i < st.saved.len() ==> #[trigger] st.saved[i] == (
                        scope_stack@[i].0 as int,
                        scope_stack@[i].1 as int,
                    )
                &&& table_matches(functions@, st.functions)
            }),
    {
        let ghost idx = it.index() as int;
        let ghost st = flatten_walk(total.take(idx))->0;
        proof {
            lemma_walk_prefix(total, idx + 1);
            assert(total.take(idx + 1).drop_last() =~= total.take(idx));
            assert(total.take(idx + 1).last() == op);
            lemma_step_inv(st, op, idx);
        }
        let ghost nx = flatten_step(st, op)->0;
        let ghost old_table = functions@;
        let ghost old_stack = scope_stack@;
        let id: i32;
        match op {
            CoreOp::Function => {
                scope_stack.push((fun, matching_end));
                matching_end = 0;
                fun = fun + 1;
                if functions.contains_key(&fun) {
                    fun = functions.len() as i32;
                }
                id = fun;
            },
            CoreOp::If | CoreOp::While => {
                matching_end = matching_end + 1;
                id = fun;
            },
            CoreOp::End => {
                id = fun;
                if matching_end == 0 {
                    let (f, m) = scope_stack.pop().unwrap();
                    fun = f;
                    matching_end = m;
                    proof {
                        assert(st.saved.last() == st.saved[st.saved.len() - 1]);
                    }
                } else {
                    matching_end = matching_end - 1;
                }
            },
            _ => {
                id = fun;
            },
        }
        append_op(&mut functions, id, op);
        proof {
            assert(nx.functions == append_to(st.functions, id as int, op));
            assert(forall|i: int|
                0 <= i < nx.saved.len() ==> #[trigger] nx.saved[i] == (
                    scope_stack@[i].0 as int,
                    scope_stack@[i].1 as int,
                )) by {
                assert forall|i: int| 0 <= i < nx.saved.len() implies #[trigger] nx.saved[i] == (
                    scope_stack@[i].0 as int,
                    scope_stack@[i].1 as int,
                ) by {
                    if i < st.saved.len() {
                        assert(st.saved[i] == (
                            old_stack[i].0 as int,
                            old_stack[i].1 as int,
                        ));
                    }
                }
            }
            assert forall|k: i32| #[trigger] functions@.contains_key(k) <==> nx.functions.contains_key(k as int) by {}
            assert forall|k: i32| #[trigger] functions@.contains_key(k) implies functions@[k]@ == nx.functions[k as int] by {}
            assert(functions@.dom() == old_table.dom().insert(id));
            assert(nx.functions.dom() == st.functions.dom().insert(id as int));
            if old_table.contains_key(id) {
                assert(old_table.dom().insert(id) =~= old_table.dom());
                assert(st.functions.dom().insert(id as int) =~= st.functions.dom());
            }
        }
    }
    proof {
        assert(total.take(total.len() as int) =~= total);
    }
    functions
}

/// The walk of a well-scoped program keeps its invariant to the end.
proof fn lemma_walk_inv(code: Seq<CoreOp>)
    requires
        well_scoped(code),
    ensures
        flat_state_inv(flatten_walk(code)->0, code.len() as int),
    decreases code.len(),
{
    if code.len() > 0 {
        lemma_walk_prefix(code, code.len() - 1);
        assert(code.take(code.len() - 1) =~= code.drop_last());
        lemma_walk_inv(code.drop_last());
        lemma_step_inv(flatten_walk(code.drop_last())->0, code.last(), code.len() - 1);
    }
}

/// Lay out the function bodies in ascending id, then the main program.
fn lay_out(functions: HashMap<i32, Vec<CoreOp>>, Ghost(fns): Ghost<Map<int, Seq<CoreOp>>>) -> (r:
    Vec<CoreOp>)
    requires
        table_matches(functions@, fns),
        fns.len() < i32::MAX,
        forall|k: int| #[trigger] fns.contains_key(k) ==> -1 <= k < fns.len(),
    ensures
        r@ == flat_code(fns),
{
    let mut functions = functions;
    let n: i32 = functions.len() as i32;
    let mut result: Vec<CoreOp> = Vec::new();
    let mut i: i32 = 0;
    while i <= n
        invariant
            0 <= i <= n + 1,
            n == fns.len(),
            fns.len() < i32::MAX,
            result@ == bodies_below(fns, i as int),
            forall|k: i32| #[trigger]
                functions@.contains_key(k) <==> (fns.contains_key(k as int) && !(0 <= k < i)),
            forall|k: i32| #[trigger] functions@.contains_key(k) ==> functions@[k]@ == fns[k as int],
        decreases n + 1 - i,
    {
        match functions.remove(&i) {
            Some(body) => {
                let mut body = body;
                result.append(&mut body);
            },
            None => {},
        }
        i = i + 1;
    }
    match functions.remove(&-1) {
        Some(body) => {
            let mut body = body;
            result.append(&mut body);
        },
        None => {},
    }
    proof {
        assert(result@ =~= flat_code(fns));
    }
    result
}

/// No function ids in use but the main program's.
pub open spec fn only_main(fns: Map<int, Seq<CoreOp>>) -> bool {
    forall|k: int| #[trigger] fns.contains_key(k) ==> k == -1
}

proof fn lemma_bodies_below_empty(fns: Map<int, Seq<CoreOp>>, n: int)
    requires
        only_main(fns),
    ensures
        bodies_below(fns, n) == Seq::<CoreOp>::empty(),
    decreases n,
{
    if n > 0 {
        lemma_bodies_below_empty(fns, n - 1);
        assert(!fns.contains_key(n - 1));
        assert(bodies_below(fns, n) =~= Seq::<CoreOp>::empty());
    }
}

proof fn lemma_walk_without_functions(code: Seq<CoreOp>)
    requires
        well_scoped(code),
        forall|i: int| 0 <= i < code.len() ==> !(#[trigger] code[i] is Function),
    ensures
        flatten_walk(code)->0.fun == -1,
        flatten_walk(code)->0.saved.len() == 0,
        only_main(flatten_walk(code)->0.functions),
        body_of(flatten_walk(code)->0.functions, -1) == code,
    decreases code.len(),
{
    if code.len() > 0 {
        let init = code.drop_last();
        lemma_walk_prefix(code, code.len() - 1);
        assert(code.take(code.len() - 1) =~= init);
        assert forall|i: int| 0 <= i < init.len() implies !(#[trigger] init[i] is Function) by {
            assert(init[i] == code[i]);
        }
        lemma_walk_without_functions(init);
        let st = flatten_walk(init)->0;
        let op = code.last();
        assert(!(code[code.len() - 1] is Function));
        let nx = flatten_step(st, op)->0;
        assert(nx.functions == append_to(st.functions, -1, op));
        assert(body_of(nx.functions, -1) =~= code);
    }
}

/// A program that defines no functions is its own flat form: the whole of
/// it is the main program, and nothing comes before it.
pub proof fn lemma_flatten_without_functions(code: Seq<CoreOp>)
    requires
        well_scoped(code),
        forall|i: int| 0 <= i < code.len() ==> !(#[trigger] code[i] is Function),
    ensures
        flat_code(function_bodies(code)) == code,
        body_of(function_bodies(code), -1) == code,
{
    lemma_walk_without_functions(code);
    let fns = function_bodies(code);
    lemma_bodies_below_empty(fns, fns.len() + 1 as int);
    assert(flat_code(fns) =~= code);
}

proof fn lemma_bodies_below_append(fns: Map<int, Seq<CoreOp>>, id: int, op: CoreOp, n: int)
    ensures
        bodies_below(append_to(fns, id, op), n).to_multiset() == if 0 <= id < n {
            bodies_below(fns, n).to_multiset().insert(op)
        } else {
            bodies_below(fns, n).to_multiset()
        },
    decreases n,
{
    broadcast use vstd::seq_lib::lemma_multiset_commutative, vstd::seq_lib::to_multiset_build;

    let g = append_to(fns, id, op);
    if n > 0 {
        lemma_bodies_below_append(fns, id, op, n - 1);
        let (a, b) = (bodies_below(fns, n - 1), body_of(fns, n - 1));
        let (a2, b2) = (bodies_below(g, n - 1), body_of(g, n - 1));
        assert(bodies_below(g, n) == a2 + b2);
        assert(bodies_below(fns, n) == a + b);
        if n - 1 == id {
            assert(b2 == b.push(op));
        } else {
            assert(b2 == b);
        }
        assert((a2 + b2).to_multiset() =~= a2.to_multiset().add(b2.to_multiset()));
        assert((a + b).to_multiset() =~= a.to_multiset().add(b.to_multiset()));
        if n - 1 == id {
            assert(b.push(op).to_multiset() =~= b.to_multiset().insert(op));
        }
        assert(bodies_below(g, n).to_multiset() =~= if 0 <= id < n {
            bodies_below(fns, n).to_multiset().insert(op)
        } else {
            bodies_below(fns, n).to_multiset()
        });
    } else {
        assert(bodies_below(g, n) =~= Seq::<CoreOp>::empty());
    }
}

/// Every instruction of the program, counted once in the body it went to.
pub open spec fn collected_ops(fns: Map<int, Seq<CoreOp>>, n: int) -> Multiset<CoreOp> {
    bodies_below(fns, n).to_multiset().add(body_of(fns, -1).to_multiset())
}

proof fn lemma_walk_keeps_ops(code: Seq<CoreOp>, n: int)
    requires
        well_scoped(code),
        function_bodies(code).len() <= n,
    ensures
        collected_ops(function_bodies(code), n) == code.to_multiset(),
    decreases code.len(),
{
    broadcast use vstd::seq_lib::group_to_multiset_ensures, vstd::multiset::group_multiset_axioms;

    lemma_walk_inv(code);
    if code.len() == 0 {
        let e = Seq::<CoreOp>::empty();
        assert(e.to_multiset().len() == 0);
        assert(e.to_multiset() =~= Multiset::empty());
        lemma_bodies_below_empty(Map::<int, Seq<CoreOp>>::empty(), n);
        assert(bodies_below(Map::<int, Seq<CoreOp>>::empty(), n) == e);
        assert(body_of(Map::<int, Seq<CoreOp>>::empty(), -1) == e);
        assert(code == e);
        assert(collected_ops(function_bodies(code), n) =~= code.to_multiset());
    } else {
        let init = code.drop_last();
        lemma_walk_prefix(code, code.len() - 1);
        assert(code.take(code.len() - 1) =~= init);
        lemma_walk_inv(init);
        let st = flatten_walk(init)->0;
        let op = code.last();
        let nx = flatten_step(st, op)->0;
        let id = match op {
            CoreOp::Function => nx.fun,
            _ => st.fun,
        };
        assert(nx.functions == append_to(st.functions, id, op));
        assert(st.functions.dom().insert(id) == nx.functions.dom());
        if st.functions.contains_key(id) {
            assert(st.functions.dom().insert(id) =~= st.functions.dom());
        }
        assert(st.functions.len() <= nx.functions.len());
        lemma_walk_keeps_ops(init, n);
        lemma_bodies_below_append(st.functions, id, op, n);
        assert(nx.functions.contains_key(id));
        assert(id < nx.functions.len());
        assert(code =~= init.push(op));
        let (b, b2) = (body_of(st.functions, -1), body_of(nx.functions, -1));
        if id == -1 {
            assert(b2 == b.push(op));
            assert(b.push(op).to_multiset() =~= b.to_multiset().insert(op));
        } else {
            assert(b2 == b);
        }
        assert(collected_ops(nx.functions, n) =~= collected_ops(st.functions, n).insert(op));
    }
}

/// Flattening only rearranges a program: the flat program holds each
/// instruction of the original exactly as often as the original does.
pub proof fn lemma_flatten_keeps_instructions(code: Seq<CoreOp>)
    requires
        well_scoped(code),
    ensures
        flat_code(function_bodies(code)).to_multiset() == code.to_multiset(),
{
    broadcast use vstd::seq_lib::lemma_multiset_commutative;

    let fns = function_bodies(code);
    lemma_walk_keeps_ops(code, fns.len() + 1 as int);
    let n = fns.len() + 1 as int;
    assert(flat_code(fns).to_multiset() =~= collected_ops(fns, n));
}

/// Two instructions that are the same up to copying their contents.
pub open spec fn same_op(a: CoreOp, b: CoreOp) -> bool {
    match (a, b) {
        (CoreOp::SetRegister(x), CoreOp::SetRegister(y)) => x@ == y@,
        _ => a == b,
    }
}

/// Two instruction sequences that are the same up to copying.
pub open spec fn same_ops(s: Seq<CoreOp>, t: Seq<CoreOp>) -> bool {
    &&& s.len() == t.len()
    &&& forall|i: int| 0 <= i < s.len() ==> #[trigger] same_op(s[i], t[i])
}

proof fn lemma_same_ops_symmetric(s: Seq<CoreOp>, t: Seq<CoreOp>)
    requires
        same_ops(s, t),
    ensures
        same_ops(t, s),
{
    assert forall|i: int| 0 <= i < t.len() implies #[trigger] same_op(t[i], s[i]) by {
        assert(same_op(s[i], t[i]));
    }
}

/// A table of function bodies that holds copies of the bodies of a model.
pub open spec fn table_alike(table: Map<i32, Vec<CoreOp>>, fns: Map<int, Seq<CoreOp>>) -> bool {
    &&& forall|k: i32| #[trigger] table.contains_key(k) <==> fns.contains_key(k as int)
    &&& forall|k: i32| #[trigger] table.contains_key(k) ==> same_ops(table[k]@, fns[k as int])
}

/// Walks over two programs that are the same up to copying.
pub open spec fn states_alike(a: FlatState, b: FlatState) -> bool {
    &&& a.fun == b.fun
    &&& a.open == b.open
    &&& a.saved == b.saved
    &&& a.functions.dom() == b.functions.dom()
    &&& forall|k: int| #[trigger] a.functions.contains_key(k) ==> same_ops(a.functions[k], b.functions[k])
}

/// The walk looks at the kind of each instruction only, so copies of a
/// program flatten to copies of its functions.
proof fn lemma_walk_alike(a: Seq<CoreOp>, b: Seq<CoreOp>)
    requires
        same_ops(a, b),
        well_scoped(a),
    ensures
        well_scoped(b),
        states_alike(flatten_walk(a)->0, flatten_walk(b)->0),
    decreases a.len(),
{
    if a.len() > 0 {
        let (a0, b0) = (a.drop_last(), b.drop_last());
        assert(same_op(a[a.len() - 1], b[b.len() - 1]));
        assert forall|i: int| 0 <= i < a0.len() implies #[trigger] same_op(a0[i], b0[i]) by {
            assert(same_op(a[i], b[i]));
        }
        lemma_walk_prefix(a, a.len() - 1);
        assert(a.take(a.len() - 1) =~= a0);
        lemma_walk_alike(a0, b0);
        let (sa, sb) = (flatten_walk(a0)->0, flatten_walk(b0)->0);
        let (oa, ob) = (a.last(), b.last());
        let (na, nb) = (flatten_step(sa, oa)->0, flatten_step(sb, ob)->0);
        assert(sa.functions.len() == sb.functions.len());
        let id = match oa {
            CoreOp::Function => na.fun,
            _ => sa.fun,
        };
        assert(na.functions == append_to(sa.functions, id, oa));
        assert(nb.functions == append_to(sb.functions, id, ob));
        assert(na.functions.dom() =~= nb.functions.dom());
        assert forall|k: int| #[trigger] na.functions.contains_key(k) implies same_ops(
            na.functions[k],
            nb.functions[k],
        ) by {
            if k == id {
                let (ba, bb) = (body_of(sa.functions, id), body_of(sb.functions, id));
                assert(same_ops(ba, bb));
                assert forall|i: int| 0 <= i < ba.len() + 1 implies #[trigger] same_op(
                    ba.push(oa)[i],
                    bb.push(ob)[i],
                ) by {
                    if i < ba.len() {
                        assert(same_op(ba[i], bb[i]));
                    }
                }
            }
        }
    }
}

impl CoreOp {
    /// A copy of this instruction.
    pub fn copy(&self) -> (r: CoreOp)
        ensures
            same_op(r, *self),
    {
        match self {
            CoreOp::Comment(s) => CoreOp::Comment(s.clone()),
            CoreOp::SetRegister(v) => {
                let mut w: Vec<i64> = Vec::new();
                for i in 0..v.len()
                    invariant
                        w@ == v@.take(i as int),
                {
                    w.push(v[i]);
                    proof {
                        assert(v@.take(i + 1) =~= v@.take(i as int).push(v@[i as int]));
                    }
                }
                proof {
                    assert(v@.take(v@.len() as int) =~= v@);
                }
                CoreOp::SetRegister(w)
            },
            CoreOp::Function => CoreOp::Function,
            CoreOp::Call => CoreOp::Call,
            CoreOp::Return => CoreOp::Return,
            CoreOp::While => CoreOp::While,
            CoreOp::If => CoreOp::If,
            CoreOp::Else => CoreOp::Else,
            CoreOp::End => CoreOp::End,
            CoreOp::Store(n) => CoreOp::Store(*n),
            CoreOp::Load(n) => CoreOp::Load(*n),
            CoreOp::Move(n) => CoreOp::Move(*n),
            CoreOp::Where => CoreOp::Where,
            CoreOp::Deref => CoreOp::Deref,
            CoreOp::Refer => CoreOp::Refer,
            CoreOp::Index => CoreOp::Index,
            CoreOp::BitwiseNand => CoreOp::BitwiseNand,
            CoreOp::Add => CoreOp::Add,
            CoreOp::Sub => CoreOp::Sub,
            CoreOp::Mul => CoreOp::Mul,
            CoreOp::Div => CoreOp::Div,
            CoreOp::Rem => CoreOp::Rem,
            CoreOp::IsNonNegative => CoreOp::IsNonNegative,
            CoreOp::Get(i) => CoreOp::Get(*i),
            CoreOp::Put(o) => CoreOp::Put(*o),
        }
    }
}

/// A copy of a sequence of instructions.
fn copy_ops(code: &Vec<CoreOp>) -> (r: Vec<CoreOp>)
    ensures
        same_ops(r@, code@),
{
    let mut r: Vec<CoreOp> = Vec::new();
    for i in 0..code.len()
        invariant
            r@.len() == i,
            forall|j: int| 0 <= j < i ==> #[trigger] same_op(r@[j], code@[j]),
    {
        r.push(code[i].copy());
    }
    r
}

/// A program of only core virtual machine instructions.
#[derive(Clone, Debug, PartialEq, Eq, Hash, Default)]
pub struct CoreProgram(pub Vec<CoreOp>);

impl CoreProgram {
    /// Flatten the program so that all of its functions are defined one after
    /// another at the beginning, in ascending id, followed by the main program.
    pub fn flatten(self) -> (r: Self)
        requires
            self.0@.len() < i32::MAX,
            well_scoped(self.0@),
        ensures
            r.0@ == flat_code(function_bodies(self.0@)),
    {
        proof {
            lemma_walk_inv(self.0@);
        }
        let table = function_table(self.0);
        CoreProgram(lay_out(table, Ghost(function_bodies(self.0@))))
    }

    /// The code outside of any function, and the body of each function by id.
    pub fn get_main_and_functions(self) -> (r: (Vec<CoreOp>, HashMap<i32, Vec<CoreOp>>))
        requires
            self.0@.len() < i32::MAX,
            well_scoped(self.0@),
        ensures
            r.0@ == body_of(function_bodies(self.0@), -1),
            table_matches(r.1@, function_bodies(self.0@).remove(-1)),
    {
        let ghost fns = function_bodies(self.0@);
        proof {
            lemma_walk_inv(self.0@);
        }
        let mut table = function_table(self.0);
        let ghost whole = table@;
        let main = match table.remove(&-1) {
            Some(body) => body,
            None => Vec::new(),
        };
        proof {
            assert forall|k: i32| #[trigger] table@.contains_key(k) <==> fns.remove(-1).contains_key(
                k as int,
            ) by {}
            if fns.contains_key(-1) {
                assert(whole.contains_key(-1i32));
                assert(table@.dom() == whole.dom().remove(-1i32));
                assert(fns.remove(-1).dom() == fns.dom().remove(-1));
                assert(table@.len() == whole.len() - 1);
                assert(fns.remove(-1).len() == fns.len() - 1);
            } else {
                assert(fns.remove(-1) =~= fns);
            }
        }
        (main, table)
    }

    /// The code outside of any function.
    pub fn get_main(&self) -> (r: Vec<CoreOp>)
        requires
            self.0@.len() < i32::MAX,
            well_scoped(self.0@),
        ensures
            same_ops(r@, body_of(function_bodies(self.0@), -1)),
    {
        let code = copy_ops(&self.0);
        proof {
            lemma_same_ops_symmetric(code@, self.0@);
            lemma_walk_alike(self.0@, code@);
        }
        let (main, _) = CoreProgram(code).get_main_and_functions();
        proof {
            let (fa, fb) = (function_bodies(self.0@), function_bodies(code@));
            if fa.contains_key(-1) {
                assert(same_ops(fa[-1], fb[-1]));
                assert forall|i: int| 0 <= i < main@.len() implies #[trigger] same_op(
                    main@[i],
                    fa[-1][i],
                ) by {
                    assert(same_op(fa[-1][i], fb[-1][i]));
                    if let CoreOp::SetRegister(_) = main@[i] {
                    }
                }
            }
        }
        main
    }

    /// The body of each function, by id.
    pub fn get_functions(&self) -> (r: HashMap<i32, Vec<CoreOp>>)
        requires
            self.0@.len() < i32::MAX,
            well_scoped(self.0@),
        ensures
            table_alike(r@, function_bodies(self.0@).remove(-1)),
    {
        let code = copy_ops(&self.0);
        proof {
            lemma_same_ops_symmetric(code@, self.0@);
            lemma_walk_alike(self.0@, code@);
        }
        let (_, functions) = CoreProgram(code).get_main_and_functions();
        proof {
            let (fa, fb) = (function_bodies(self.0@), function_bodies(code@));
            assert forall|k: i32| #[trigger] functions@.contains_key(k) implies same_ops(
                functions@[k]@,
                fa.remove(-1)[k as int],
            ) by {
                let (x, y) = (fa[k as int], fb[k as int]);
                assert(same_ops(x, y));
                assert forall|i: int| 0 <= i < y.len() implies #[trigger] same_op(
                    y[i],
                    x[i],
                ) by {
                    assert(same_op(x[i], y[i]));
                }
            }
        }
        functions
    }
}

} // verus!
