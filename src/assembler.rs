//! The assembler: assembly instructions over symbolic locations, lowered to
//! core virtual machine instructions.
//!
//! Every lowered instruction starts and ends with the tape pointer at cell 0.
//! A location is reached by moving to its address, following each pointer
//! with `Deref`, and is left by the inverse moves and `Refer`. The target is
//! the core machine: a standard instruction, or a location that cannot be
//! reached, is an `UnsupportedInstruction`.
use crate::assembly::{balanced, open_scopes, opens_scope, AssemblyProgram, CoreOp, Location, StandardOp};
use crate::vm::{flat_code, flatten_walk, function_bodies, well_scoped};
use crate::error::Error;
use crate::vm;
use vstd::prelude::*;

verus! {

/// One instruction of lowered code, as the specification writes it: an
/// instruction, or setting the register to one constant.
pub enum Emit {
    Op(vm::CoreOp),
    SetTo(i64),
}

/// An instruction is what a template entry asks for.
pub open spec fn emits(c: vm::CoreOp, e: Emit) -> bool {
    match e {
        Emit::Op(o) => c == o,
        Emit::SetTo(n) => c is SetRegister && c->SetRegister_0@ == seq![n],
    }
}

/// Code is what a template asks for, instruction by instruction.
pub open spec fn matches_emit(code: Seq<vm::CoreOp>, t: Seq<Emit>) -> bool {
    &&& code.len() == t.len()
    &&& forall|i: int| 0 <= i < code.len() ==> #[trigger] emits(code[i], t[i])
}

/// A move of the tape pointer the machine can make, and undo.
pub open spec fn movable(k: i64) -> bool {
    isize::MIN < k && k <= isize::MAX
}

/// The moves from cell 0 to a location.
pub open spec fn path_to(l: Location) -> Seq<Emit>
    decreases l,
{
    match l {
        Location::Address(a) => seq![Emit::Op(vm::CoreOp::Move(a as isize))],
        Location::Global(_) => Seq::empty(),
        Location::Indirect(x) => path_to(*x).push(Emit::Op(vm::CoreOp::Deref)),
        Location::Offset(x, k) => path_to(*x).push(Emit::Op(vm::CoreOp::Move(k as isize))),
    }
}

/// The moves from a location back to cell 0.
pub open spec fn path_back(l: Location) -> Seq<Emit>
    decreases l,
{
    match l {
        Location::Address(a) => seq![Emit::Op(vm::CoreOp::Move((-a) as isize))],
        Location::Global(_) => Seq::empty(),
        Location::Indirect(x) => seq![Emit::Op(vm::CoreOp::Refer)] + path_back(*x),
        Location::Offset(x, k) => seq![Emit::Op(vm::CoreOp::Move((-k) as isize))] + path_back(*x),
    }
}

/// A location the core machine can reach: no named globals, and every move
/// within the machine's range.
pub open spec fn reachable(l: Location) -> bool
    decreases l,
{
    match l {
        Location::Address(a) => movable(a),
        Location::Global(_) => false,
        Location::Indirect(x) => reachable(*x),
        Location::Offset(x, k) => movable(k) && reachable(*x),
    }
}

pub open spec fn sp() -> Location {
    Location::Address(0)
}

/// The scratch cell.
pub open spec fn tmp() -> Location {
    Location::Address(2)
}

/// The cell `k` cells past the top of the stack.
pub open spec fn stack_at(k: i64) -> Location {
    Location::Offset(Box::new(Location::Indirect(Box::new(sp()))), k)
}

pub open spec fn load(l: Location) -> Seq<Emit> {
    path_to(l) + seq![Emit::Op(vm::CoreOp::Load(1))] + path_back(l)
}

pub open spec fn store(l: Location) -> Seq<Emit> {
    path_to(l) + seq![Emit::Op(vm::CoreOp::Store(1))] + path_back(l)
}

/// `dst = dst op src`, for an arithmetic instruction of the machine.
pub open spec fn arith(dst: Location, src: Location, op: vm::CoreOp) -> Seq<Emit> {
    load(dst) + path_to(src) + seq![Emit::Op(op)] + path_back(src) + store(dst)
}

/// Add `n` to, or subtract it from, a location, through the scratch cell.
pub open spec fn adjust(l: Location, n: i64, op: vm::CoreOp) -> Seq<Emit> {
    seq![Emit::SetTo(n)] + store(tmp()) + arith(l, tmp(), op)
}

/// Copy the `i` cells from `src` to those from `dst`.
pub open spec fn copy_cells(src: Location, dst_from: int, i: nat) -> Seq<Emit>
    decreases i,
{
    if i == 0 {
        Seq::empty()
    } else {
        copy_cells(src, dst_from, (i - 1) as nat) + load(
            Location::Offset(Box::new(src), (i - 1) as i64),
        ) + store(stack_at((dst_from + i - 1) as i64))
    }
}

/// Copy `i` cells from the stack, starting `from` cells past its top, to `dst`.
pub open spec fn pop_cells(dst: Location, from: int, i: nat) -> Seq<Emit>
    decreases i,
{
    if i == 0 {
        Seq::empty()
    } else {
        pop_cells(dst, from, (i - 1) as nat) + load(stack_at((from + i - 1) as i64)) + store(
            Location::Offset(Box::new(dst), (i - 1) as i64),
        )
    }
}

/// The scopes open while assembling, innermost last: the index of the
/// instruction that opened each, and the location a loop tests.
pub ghost struct AsmState {
    pub open: Seq<(usize, Option<Location>)>,
    /// The labels of the functions defined so far; a label's function id is
    /// its position here.
    pub labels: Seq<usize>,
}

/// The position of the first occurrence of a label.
pub open spec fn label_id(labels: Seq<usize>, l: usize) -> Option<nat>
    decreases labels.len(),
{
    if labels.len() == 0 {
        None
    } else {
        match label_id(labels.drop_last(), l) {
            Some(k) => Some(k),
            None => if labels.last() == l {
                Some((labels.len() - 1) as nat)
            } else {
                None
            },
        }
    }
}

/// Whether every location an instruction names can be reached, and the
/// cells it copies can be counted in a move.
pub open spec fn op_reachable(op: CoreOp) -> bool {
    match op {
        CoreOp::Call(l) | CoreOp::If(l) | CoreOp::While(l) | CoreOp::SetValue(l, _) | CoreOp::Inc(l)
        | CoreOp::Dec(l) => reachable(l),
        CoreOp::Move { src, dst } | CoreOp::Add { src, dst } | CoreOp::Sub { src, dst }
        | CoreOp::Mul { src, dst } | CoreOp::Div { src, dst } | CoreOp::Rem { src, dst } => reachable(src)
            && reachable(dst),
        CoreOp::GetAddress { addr, dst } => reachable(addr) && reachable(dst),
        CoreOp::Push(l, n) => reachable(l) && n < isize::MAX && n < i64::MAX,
        CoreOp::Pop(Some(l), n) => reachable(l) && n < isize::MAX && n < i64::MAX,
        CoreOp::Pop(None, n) => n < i64::MAX,
        _ => true,
    }
}

/// The lowering of one core instruction at position `index`, and the state after it.
#[verifier::opaque]
pub open spec fn lower_core(op: CoreOp, index: usize, st: AsmState) -> Result<(Seq<Emit>, AsmState), Error> {
    let top1 = stack_at(1);
    if !op_reachable(op) {
        Err(Error::UnsupportedInstruction(StandardOp::CoreOp(op)))
    } else {
        match op {
            CoreOp::Comment(s) => Ok((seq![Emit::Op(vm::CoreOp::Comment(s))], st)),
            CoreOp::Fn(label) => Ok((
                seq![Emit::Op(vm::CoreOp::Function)],
                AsmState { open: st.open.push((index, None)), labels: st.labels.push(label) },
            )),
            CoreOp::PushLabel(label) => match label_id(st.labels, label) {
                Some(id) => if id > i64::MAX {
                    Err(Error::SizeOverflow)
                } else {
                    Ok((seq![Emit::SetTo(id as i64)] + store(top1) + adjust(sp(), 1, vm::CoreOp::Add), st))
                },
                None => Err(Error::UndefinedLabel(label)),
            },
            CoreOp::Call(l) => Ok((load(l).push(Emit::Op(vm::CoreOp::Call)), st)),
            CoreOp::Return => Ok((seq![Emit::Op(vm::CoreOp::Return)], st)),
            CoreOp::If(l) => Ok((
                load(l).push(Emit::Op(vm::CoreOp::If)),
                AsmState { open: st.open.push((index, None)), labels: st.labels },
            )),
            CoreOp::Else => Ok((seq![Emit::Op(vm::CoreOp::Else)], st)),
            CoreOp::While(l) => Ok((
                load(l).push(Emit::Op(vm::CoreOp::While)),
                AsmState { open: st.open.push((index, Some(l))), labels: st.labels },
            )),
            CoreOp::End => if st.open.len() == 0 {
                Err(Error::Unmatched(Box::new(CoreOp::End), index))
            } else {
                let after = AsmState { open: st.open.drop_last(), labels: st.labels };
                match st.open.last().1 {
                    // A loop tests its location again before each turn.
                    Some(l) => Ok((load(l).push(Emit::Op(vm::CoreOp::End)), after)),
                    None => Ok((seq![Emit::Op(vm::CoreOp::End)], after)),
                }
            },
            CoreOp::SetValue(l, n) => Ok((seq![Emit::SetTo(n)] + store(l), st)),
            CoreOp::Move { src, dst } => Ok((load(src) + store(dst), st)),
            CoreOp::GetAddress { addr, dst } => Ok((
                path_to(addr) + seq![Emit::Op(vm::CoreOp::Where)] + path_back(addr) + store(dst),
                st,
            )),
            CoreOp::Push(l, n) => Ok((
                copy_cells(l, 1, n as nat) + adjust(sp(), n as i64, vm::CoreOp::Add),
                st,
            )),
            CoreOp::Pop(Some(l), n) => Ok((
                pop_cells(l, 1 - n, n as nat) + adjust(sp(), n as i64, vm::CoreOp::Sub),
                st,
            )),
            CoreOp::Pop(None, n) => Ok((adjust(sp(), n as i64, vm::CoreOp::Sub), st)),
            CoreOp::Inc(l) => Ok((adjust(l, 1, vm::CoreOp::Add), st)),
            CoreOp::Dec(l) => Ok((adjust(l, 1, vm::CoreOp::Sub), st)),
            CoreOp::Add { src, dst } => Ok((arith(dst, src, vm::CoreOp::Add), st)),
            CoreOp::Sub { src, dst } => Ok((arith(dst, src, vm::CoreOp::Sub), st)),
            CoreOp::Mul { src, dst } => Ok((arith(dst, src, vm::CoreOp::Mul), st)),
            CoreOp::Div { src, dst } => Ok((arith(dst, src, vm::CoreOp::Div), st)),
            CoreOp::Rem { src, dst } => Ok((arith(dst, src, vm::CoreOp::Rem), st)),
        }
    }
}

/// The lowering of one assembly instruction: core instructions are lowered,
/// standard ones are not supported by the core machine.
pub open spec fn lower_op(op: StandardOp, index: usize, st: AsmState) -> Result<(Seq<Emit>, AsmState), Error> {
    match op {
        StandardOp::CoreOp(c) => lower_core(c, index, st),
        _ => Err(Error::UnsupportedInstruction(op)),
    }
}

/// Locations of open loops can be reached.
pub open spec fn state_ok(st: AsmState) -> bool {
    forall|j: int|
        0 <= j < st.open.len() ==> (#[trigger] st.open[j]).1 is Some ==> reachable(st.open[j].1->0)
}

proof fn lemma_push_emit(code: Seq<vm::CoreOp>, t: Seq<Emit>, c: vm::CoreOp, e: Emit)
    requires
        matches_emit(code, t),
        emits(c, e),
    ensures
        matches_emit(code.push(c), t.push(e)),
{
    assert forall|i: int| 0 <= i < code.len() + 1 implies #[trigger] emits(code.push(c)[i], t.push(e)[i]) by {
        if i < code.len() {
            assert(emits(code[i], t[i]));
        }
    }
}

fn push_op(code: &mut Vec<vm::CoreOp>, op: vm::CoreOp, Ghost(t): Ghost<Seq<Emit>>)
    requires
        matches_emit(old(code)@, t),
    ensures
        matches_emit(final(code)@, t.push(Emit::Op(op))),
{
    let ghost c0 = code@;
    code.push(op);
    proof {
        lemma_push_emit(c0, t, op, Emit::Op(op));
    }
}

fn push_set(code: &mut Vec<vm::CoreOp>, n: i64, Ghost(t): Ghost<Seq<Emit>>)
    requires
        matches_emit(old(code)@, t),
    ensures
        matches_emit(final(code)@, t.push(Emit::SetTo(n))),
{
    let ghost c0 = code@;
    let op = vm::CoreOp::SetRegister(vec![n]);
    assert(op->SetRegister_0@ =~= seq![n]);
    code.push(op);
    proof {
        lemma_push_emit(c0, t, op, Emit::SetTo(n));
    }
}

fn is_reachable(l: &Location) -> (r: bool)
    ensures
        r == reachable(*l),
    decreases l,
{
    match l {
        Location::Address(a) => *a as i128 > isize::MIN as i128 && *a as i128 <= isize::MAX as i128,
        Location::Global(_) => false,
        Location::Indirect(x) => is_reachable(x),
        Location::Offset(x, k) => *k as i128 > isize::MIN as i128 && *k as i128 <= isize::MAX as i128
            && is_reachable(x),
    }
}

fn go_to(l: &Location, code: &mut Vec<vm::CoreOp>, Ghost(t): Ghost<Seq<Emit>>)
    requires
        reachable(*l),
        matches_emit(old(code)@, t),
    ensures
        matches_emit(final(code)@, t + path_to(*l)),
    decreases l,
{
    match l {
        Location::Address(a) => {
            push_op(code, vm::CoreOp::Move(*a as isize), Ghost(t));
            assert(t.push(Emit::Op(vm::CoreOp::Move(*a as isize))) =~= t + path_to(*l));
        },
        Location::Global(_) => {},
        Location::Indirect(x) => {
            go_to(x, code, Ghost(t));
            push_op(code, vm::CoreOp::Deref, Ghost(t + path_to(**x)));
            assert((t + path_to(**x)).push(Emit::Op(vm::CoreOp::Deref)) =~= t + path_to(*l));
        },
        Location::Offset(x, k) => {
            go_to(x, code, Ghost(t));
            push_op(code, vm::CoreOp::Move(*k as isize), Ghost(t + path_to(**x)));
            assert((t + path_to(**x)).push(Emit::Op(vm::CoreOp::Move(*k as isize))) =~= t + path_to(*l));
        },
    }
}

fn go_back(l: &Location, code: &mut Vec<vm::CoreOp>, Ghost(t): Ghost<Seq<Emit>>)
    requires
        reachable(*l),
        matches_emit(old(code)@, t),
    ensures
        matches_emit(final(code)@, t + path_back(*l)),
    decreases l,
{
    match l {
        Location::Address(a) => {
            let m: isize = -(*a as isize);
            push_op(code, vm::CoreOp::Move(m), Ghost(t));
            assert(t.push(Emit::Op(vm::CoreOp::Move(m))) =~= t + path_back(*l));
        },
        Location::Global(_) => {},
        Location::Indirect(x) => {
            push_op(code, vm::CoreOp::Refer, Ghost(t));
            go_back(x, code, Ghost(t.push(Emit::Op(vm::CoreOp::Refer))));
            assert(t.push(Emit::Op(vm::CoreOp::Refer)) + path_back(**x) =~= t + path_back(*l));
        },
        Location::Offset(x, k) => {
            let m: isize = -(*k as isize);
            push_op(code, vm::CoreOp::Move(m), Ghost(t));
            go_back(x, code, Ghost(t.push(Emit::Op(vm::CoreOp::Move(m)))));
            assert(t.push(Emit::Op(vm::CoreOp::Move(m))) + path_back(**x) =~= t + path_back(*l));
        },
    }
}

/// Emit `path_to(l) + [op] + path_back(l)`.
fn visit(l: &Location, op: vm::CoreOp, code: &mut Vec<vm::CoreOp>, Ghost(t): Ghost<Seq<Emit>>)
    requires
        reachable(*l),
        matches_emit(old(code)@, t),
    ensures
        matches_emit(final(code)@, t + (path_to(*l) + seq![Emit::Op(op)] + path_back(*l))),
{
    go_to(l, code, Ghost(t));
    push_op(code, op, Ghost(t + path_to(*l)));
    go_back(l, code, Ghost((t + path_to(*l)).push(Emit::Op(op))));
    assert((t + path_to(*l)).push(Emit::Op(op)) + path_back(*l) =~= t + (path_to(*l) + seq![Emit::Op(op)]
        + path_back(*l)));
}

fn emit_arith(dst: &Location, src: &Location, op: vm::CoreOp, code: &mut Vec<vm::CoreOp>, Ghost(t): Ghost<Seq<Emit>>)
    requires
        reachable(*dst),
        reachable(*src),
        matches_emit(old(code)@, t),
    ensures
        matches_emit(final(code)@, t + arith(*dst, *src, op)),
{
    visit(dst, vm::CoreOp::Load(1), code, Ghost(t));
    let ghost t1 = t + load(*dst);
    visit(src, op, code, Ghost(t1));
    let ghost t2 = t1 + (path_to(*src) + seq![Emit::Op(op)] + path_back(*src));
    visit(dst, vm::CoreOp::Store(1), code, Ghost(t2));
    assert(t2 + store(*dst) =~= t + arith(*dst, *src, op));
}

fn emit_adjust(l: &Location, n: i64, op: vm::CoreOp, code: &mut Vec<vm::CoreOp>, Ghost(t): Ghost<Seq<Emit>>)
    requires
        reachable(*l),
        matches_emit(old(code)@, t),
    ensures
        matches_emit(final(code)@, t + adjust(*l, n, op)),
{
    push_set(code, n, Ghost(t));
    let ghost t1 = t.push(Emit::SetTo(n));
    visit(&Location::Address(2), vm::CoreOp::Store(1), code, Ghost(t1));
    let ghost t2 = t1 + store(tmp());
    emit_arith(l, &Location::Address(2), op, code, Ghost(t2));
    assert(t2 + arith(*l, tmp(), op) =~= t + adjust(*l, n, op));
}

fn stack_cell(k: i64) -> (r: Location)
    ensures
        r == stack_at(k),
        movable(k) ==> reachable(r),
{
    let r = Location::Offset(Box::new(Location::Indirect(Box::new(Location::Address(0)))), k);
    proof {
        assert(isize::MIN < 0);
        assert(reachable(Location::Address(0)));
        assert(reachable(Location::Indirect(Box::new(Location::Address(0)))));
    }
    r
}

fn emit_push(l: &Location, n: usize, code: &mut Vec<vm::CoreOp>, Ghost(t): Ghost<Seq<Emit>>)
    requires
        reachable(*l),
        n < isize::MAX,
        n < i64::MAX,
        matches_emit(old(code)@, t),
    ensures
        matches_emit(final(code)@, t + (copy_cells(*l, 1, n as nat) + adjust(sp(), n as i64, vm::CoreOp::Add))),
{
    let mut i: usize = 0;
    proof {
        assert(t + copy_cells(*l, 1, 0) =~= t);
    }
    while i < n
        invariant
            0 <= i <= n,
            reachable(*l),
            n < isize::MAX,
            n < i64::MAX,
            matches_emit(code@, t + copy_cells(*l, 1, i as nat)),
        decreases n - i,
    {
        let ghost ti = t + copy_cells(*l, 1, i as nat);
        let src = Location::Offset(Box::new(l.copy()), i as i64);
        visit(&src, vm::CoreOp::Load(1), code, Ghost(ti));
        let k: i64 = 1 + i as i64;
        visit(&stack_cell(k), vm::CoreOp::Store(1), code, Ghost(ti + load(src)));
        assert(ti + load(src) + store(stack_at(k)) =~= t + copy_cells(*l, 1, (i + 1) as nat));
        i = i + 1;
    }
    let ghost tn = t + copy_cells(*l, 1, n as nat);
    emit_adjust(&Location::Address(0), n as i64, vm::CoreOp::Add, code, Ghost(tn));
    assert(tn + adjust(sp(), n as i64, vm::CoreOp::Add) =~= t + (copy_cells(*l, 1, n as nat) + adjust(
        sp(),
        n as i64,
        vm::CoreOp::Add,
    )));
}

fn emit_pop(l: &Location, n: usize, code: &mut Vec<vm::CoreOp>, Ghost(t): Ghost<Seq<Emit>>)
    requires
        reachable(*l),
        n < isize::MAX,
        n < i64::MAX,
        matches_emit(old(code)@, t),
    ensures
        matches_emit(final(code)@, t + (pop_cells(*l, 1 - n, n as nat) + adjust(sp(), n as i64, vm::CoreOp::Sub))),
{
    let from: i64 = 1 - n as i64;
    let mut i: usize = 0;
    proof {
        assert(t + pop_cells(*l, from as int, 0) =~= t);
    }
    while i < n
        invariant
            0 <= i <= n,
            reachable(*l),
            n < isize::MAX,
            n < i64::MAX,
            from == 1 - n,
            matches_emit(code@, t + pop_cells(*l, from as int, i as nat)),
        decreases n - i,
    {
        let ghost ti = t + pop_cells(*l, from as int, i as nat);
        let k: i64 = from + i as i64;
        visit(&stack_cell(k), vm::CoreOp::Load(1), code, Ghost(ti));
        let d = Location::Offset(Box::new(l.copy()), i as i64);
        visit(&d, vm::CoreOp::Store(1), code, Ghost(ti + load(stack_at(k))));
        assert(ti + load(stack_at(k)) + store(d) =~= t + pop_cells(*l, from as int, (i + 1) as nat));
        i = i + 1;
    }
    let ghost tn = t + pop_cells(*l, from as int, n as nat);
    emit_adjust(&Location::Address(0), n as i64, vm::CoreOp::Sub, code, Ghost(tn));
    assert(tn + adjust(sp(), n as i64, vm::CoreOp::Sub) =~= t + (pop_cells(*l, 1 - n, n as nat) + adjust(
        sp(),
        n as i64,
        vm::CoreOp::Sub,
    )));
}

fn emit_label_push(id: i64, code: &mut Vec<vm::CoreOp>, Ghost(t): Ghost<Seq<Emit>>)
    requires
        matches_emit(old(code)@, t),
    ensures
        matches_emit(
            final(code)@,
            t + (seq![Emit::SetTo(id)] + store(stack_at(1)) + adjust(sp(), 1, vm::CoreOp::Add)),
        ),
{
    push_set(code, id, Ghost(t));
    let ghost t1 = t.push(Emit::SetTo(id));
    visit(&stack_cell(1), vm::CoreOp::Store(1), code, Ghost(t1));
    let ghost t2 = t1 + store(stack_at(1));
    proof {
        assert(isize::MIN < 0);
    }
    emit_adjust(&Location::Address(0), 1, vm::CoreOp::Add, code, Ghost(t2));
    assert(t2 + adjust(sp(), 1, vm::CoreOp::Add) =~= t + (seq![Emit::SetTo(id)] + store(stack_at(1)) + adjust(
        sp(),
        1,
        vm::CoreOp::Add,
    )));
}

fn core_reachable(op: &CoreOp) -> (r: bool)
    ensures
        r == op_reachable(*op),
{
    match op {
        CoreOp::Call(l) | CoreOp::If(l) | CoreOp::While(l) | CoreOp::SetValue(l, _) | CoreOp::Inc(l)
        | CoreOp::Dec(l) => is_reachable(l),
        CoreOp::Move { src, dst } | CoreOp::Add { src, dst } | CoreOp::Sub { src, dst }
        | CoreOp::Mul { src, dst } | CoreOp::Div { src, dst } | CoreOp::Rem { src, dst } => is_reachable(src)
            && is_reachable(dst),
        CoreOp::GetAddress { addr, dst } => is_reachable(addr) && is_reachable(dst),
        CoreOp::Push(l, n) => is_reachable(l) && (*n as u128) < isize::MAX as u128 && (*n as u128)
            < i64::MAX as u128,
        CoreOp::Pop(Some(l), n) => is_reachable(l) && (*n as u128) < isize::MAX as u128 && (*n as u128)
            < i64::MAX as u128,
        CoreOp::Pop(None, n) => (*n as u128) < i64::MAX as u128,
        _ => true,
    }
}

fn find_label(labels: &Vec<usize>, l: usize) -> (r: Option<usize>)
    ensures
        match r {
            Some(k) => label_id(labels@, l) == Some(k as nat),
            None => label_id(labels@, l) is None,
        },
{
    let mut i: usize = 0;
    while i < labels.len()
        invariant
            0 <= i <= labels@.len(),
            label_id(labels@.take(i as int), l) is None,
        decreases labels@.len() - i,
    {
        proof {
            assert(labels@.take(i + 1).drop_last() =~= labels@.take(i as int));
        }
        if labels[i] == l {
            proof {
                assert(label_id(labels@.take(i + 1), l) == Some(i as nat));
                lemma_label_stays(labels@, l, i + 1);
            }
            return Some(i);
        }
        i = i + 1;
    }
    proof {
        assert(labels@.take(labels@.len() as int) =~= labels@);
    }
    None
}

proof fn lemma_label_stays(labels: Seq<usize>, l: usize, n: int)
    requires
        0 <= n <= labels.len(),
        label_id(labels.take(n), l) is Some,
    ensures
        label_id(labels, l) == label_id(labels.take(n), l),
    decreases labels.len() - n,
{
    if n < labels.len() {
        assert(labels.take(n + 1).drop_last() =~= labels.take(n));
        lemma_label_stays(labels, l, n + 1);
    } else {
        assert(labels.take(n) =~= labels);
    }
}

/// The state of assembly: the scopes open, the functions defined, and the
/// code emitted so far.
pub struct Assembler {
    pub open: Vec<(usize, Option<Location>)>,
    pub labels: Vec<usize>,
    pub code: Vec<vm::CoreOp>,
    /// What the code emitted so far was asked to be.
    pub emitted: Ghost<Seq<Emit>>,
}

impl Assembler {
    pub open spec fn state(&self) -> AsmState {
        AsmState { open: self.open@, labels: self.labels@ }
    }

    /// The code is what was asked for, and open loops can be reached.
    pub open spec fn wf(&self) -> bool {
        matches_emit(self.code@, self.emitted@) && state_ok(self.state())
    }

    /// An assembler with nothing emitted and no scope open.
    pub fn new() -> (r: Assembler)
        ensures
            r.wf(),
            r.emitted@ == Seq::<Emit>::empty(),
            r.state() == (AsmState { open: Seq::empty(), labels: Seq::empty() }),
    {
        let r = Assembler { open: Vec::new(), labels: Vec::new(), code: Vec::new(), emitted: Ghost(Seq::empty()) };
        assert(r.open@ =~= Seq::<(usize, Option<Location>)>::empty());
        assert(r.labels@ =~= Seq::<usize>::empty());
        r
    }

    /// Assemble one core instruction, at position `index` of its program,
    /// appending its lowering to the code.
    #[verifier::rlimit(60)]
    fn assemble_core(&mut self, op: &CoreOp, index: usize, Ghost(t): Ghost<Seq<Emit>>) -> (r: Result<(), Error>)
        requires
            matches_emit(old(self).code@, t),
            state_ok(old(self).state()),
        ensures
            match lower_core(*op, index, old(self).state()) {
                Ok((more, st)) => r is Ok && matches_emit(final(self).code@, t + more) && final(self).state()
                    == st && state_ok(st),
                Err(e) => r == Err::<(), Error>(e),
            },
    {
        reveal(lower_core);
        if !core_reachable(op) {
            return Err(Error::UnsupportedInstruction(StandardOp::CoreOp(op.copy())));
        }
        let ghost st = self.state();
        match op {
            CoreOp::Comment(s) => {
                push_op(&mut self.code, vm::CoreOp::Comment(s.clone()), Ghost(t));
                assert(t.push(Emit::Op(vm::CoreOp::Comment(*s))) =~= t + seq![Emit::Op(vm::CoreOp::Comment(*s))]);
            },
            CoreOp::Fn(label) => {
                push_op(&mut self.code, vm::CoreOp::Function, Ghost(t));
                assert(t.push(Emit::Op(vm::CoreOp::Function)) =~= t + seq![Emit::Op(vm::CoreOp::Function)]);
                self.open.push((index, None));
                self.labels.push(*label);
            },
            CoreOp::PushLabel(label) => {
                match find_label(&self.labels, *label) {
                    Some(id) => {
                        if id as u128 > i64::MAX as u128 {
                            return Err(Error::SizeOverflow);
                        }
                        emit_label_push(id as i64, &mut self.code, Ghost(t));
                    },
                    None => {
                        return Err(Error::UndefinedLabel(*label));
                    },
                }
            },
            CoreOp::Call(l) => {
                visit(l, vm::CoreOp::Load(1), &mut self.code, Ghost(t));
                push_op(&mut self.code, vm::CoreOp::Call, Ghost(t + load(*l)));
                assert((t + load(*l)).push(Emit::Op(vm::CoreOp::Call)) =~= t + load(*l).push(Emit::Op(vm::CoreOp::Call)));
            },
            CoreOp::Return => {
                push_op(&mut self.code, vm::CoreOp::Return, Ghost(t));
                assert(t.push(Emit::Op(vm::CoreOp::Return)) =~= t + seq![Emit::Op(vm::CoreOp::Return)]);
            },
            CoreOp::If(l) => {
                visit(l, vm::CoreOp::Load(1), &mut self.code, Ghost(t));
                push_op(&mut self.code, vm::CoreOp::If, Ghost(t + load(*l)));
                assert((t + load(*l)).push(Emit::Op(vm::CoreOp::If)) =~= t + load(*l).push(Emit::Op(vm::CoreOp::If)));
                self.open.push((index, None));
            },
            CoreOp::Else => {
                push_op(&mut self.code, vm::CoreOp::Else, Ghost(t));
                assert(t.push(Emit::Op(vm::CoreOp::Else)) =~= t + seq![Emit::Op(vm::CoreOp::Else)]);
            },
            CoreOp::While(l) => {
                visit(l, vm::CoreOp::Load(1), &mut self.code, Ghost(t));
                push_op(&mut self.code, vm::CoreOp::While, Ghost(t + load(*l)));
                assert((t + load(*l)).push(Emit::Op(vm::CoreOp::While)) =~= t + load(*l).push(Emit::Op(vm::CoreOp::While)));
                self.open.push((index, Some(l.copy())));
            },
            CoreOp::End => {
                match self.open.pop() {
                    None => {
                        return Err(Error::Unmatched(Box::new(CoreOp::End), index));
                    },
                    Some((_, opener)) => {
                        proof {
                            assert(st.open.last() == st.open[st.open.len() - 1]);
                        }
                        match opener {
                            Some(l) => {
                                visit(&l, vm::CoreOp::Load(1), &mut self.code, Ghost(t));
                                push_op(&mut self.code, vm::CoreOp::End, Ghost(t + load(l)));
                                assert((t + load(l)).push(Emit::Op(vm::CoreOp::End)) =~= t + load(l).push(Emit::Op(vm::CoreOp::End)));
                            },
                            None => {
                                push_op(&mut self.code, vm::CoreOp::End, Ghost(t));
                                assert(t.push(Emit::Op(vm::CoreOp::End)) =~= t + seq![Emit::Op(vm::CoreOp::End)]);
                            },
                        }
                    },
                }
            },
            CoreOp::SetValue(l, n) => {
                push_set(&mut self.code, *n, Ghost(t));
                visit(l, vm::CoreOp::Store(1), &mut self.code, Ghost(t.push(Emit::SetTo(*n))));
                assert(t.push(Emit::SetTo(*n)) + store(*l) =~= t + (seq![Emit::SetTo(*n)] + store(*l)));
            },
            CoreOp::Move { src, dst } => {
                visit(src, vm::CoreOp::Load(1), &mut self.code, Ghost(t));
                visit(dst, vm::CoreOp::Store(1), &mut self.code, Ghost(t + load(*src)));
                assert(t + load(*src) + store(*dst) =~= t + (load(*src) + store(*dst)));
            },
            CoreOp::GetAddress { addr, dst } => {
                visit(addr, vm::CoreOp::Where, &mut self.code, Ghost(t));
                let ghost t1 = t + (path_to(*addr) + seq![Emit::Op(vm::CoreOp::Where)] + path_back(*addr));
                visit(dst, vm::CoreOp::Store(1), &mut self.code, Ghost(t1));
                assert(t1 + store(*dst) =~= t + (path_to(*addr) + seq![Emit::Op(vm::CoreOp::Where)] + path_back(*addr)
                    + store(*dst)));
            },
            CoreOp::Push(l, n) => emit_push(l, *n, &mut self.code, Ghost(t)),
            CoreOp::Pop(Some(l), n) => emit_pop(l, *n, &mut self.code, Ghost(t)),
            CoreOp::Pop(None, n) => {
                proof {
                    assert(isize::MIN < 0);
                }
                emit_adjust(&Location::Address(0), *n as i64, vm::CoreOp::Sub, &mut self.code, Ghost(t));
            },
            CoreOp::Inc(l) => emit_adjust(l, 1, vm::CoreOp::Add, &mut self.code, Ghost(t)),
            CoreOp::Dec(l) => emit_adjust(l, 1, vm::CoreOp::Sub, &mut self.code, Ghost(t)),
            CoreOp::Add { src, dst } => emit_arith(dst, src, vm::CoreOp::Add, &mut self.code, Ghost(t)),
            CoreOp::Sub { src, dst } => emit_arith(dst, src, vm::CoreOp::Sub, &mut self.code, Ghost(t)),
            CoreOp::Mul { src, dst } => emit_arith(dst, src, vm::CoreOp::Mul, &mut self.code, Ghost(t)),
            CoreOp::Div { src, dst } => emit_arith(dst, src, vm::CoreOp::Div, &mut self.code, Ghost(t)),
            CoreOp::Rem { src, dst } => emit_arith(dst, src, vm::CoreOp::Rem, &mut self.code, Ghost(t)),
        }
        Ok(())
    }
}

proof fn lemma_label_bound(labels: Seq<usize>, l: usize)
    ensures
        label_id(labels, l) is Some ==> label_id(labels, l)->0 < labels.len(),
    decreases labels.len(),
{
    if labels.len() > 0 {
        lemma_label_bound(labels.drop_last(), l);
    }
}

impl StandardOp {
    /// A copy of this instruction.
    pub fn copy(&self) -> (r: StandardOp)
        ensures
            r == *self,
    {
        match self {
            StandardOp::CoreOp(c) => StandardOp::CoreOp(c.copy()),
            StandardOp::SetValue(l, n) => StandardOp::SetValue(l.copy(), *n),
            StandardOp::ToFloat(l) => StandardOp::ToFloat(l.copy()),
            StandardOp::ToInt(l) => StandardOp::ToInt(l.copy()),
            StandardOp::Pow { src, dst } => StandardOp::Pow { src: src.copy(), dst: dst.copy() },
            StandardOp::Sqrt(l) => StandardOp::Sqrt(l.copy()),
            StandardOp::Add { src, dst } => StandardOp::Add { src: src.copy(), dst: dst.copy() },
            StandardOp::Sub { src, dst } => StandardOp::Sub { src: src.copy(), dst: dst.copy() },
            StandardOp::Mul { src, dst } => StandardOp::Mul { src: src.copy(), dst: dst.copy() },
            StandardOp::Div { src, dst } => StandardOp::Div { src: src.copy(), dst: dst.copy() },
            StandardOp::Rem { src, dst } => StandardOp::Rem { src: src.copy(), dst: dst.copy() },
            StandardOp::Neg(l) => StandardOp::Neg(l.copy()),
            StandardOp::Sin(l) => StandardOp::Sin(l.copy()),
            StandardOp::Cos(l) => StandardOp::Cos(l.copy()),
            StandardOp::Tan(l) => StandardOp::Tan(l.copy()),
            StandardOp::ASin(l) => StandardOp::ASin(l.copy()),
            StandardOp::ACos(l) => StandardOp::ACos(l.copy()),
            StandardOp::ATan(l) => StandardOp::ATan(l.copy()),
            StandardOp::IsGreater { a, b, dst } => StandardOp::IsGreater {
                a: a.copy(),
                b: b.copy(),
                dst: dst.copy(),
            },
            StandardOp::IsLess { a, b, dst } => StandardOp::IsLess { a: a.copy(), b: b.copy(), dst: dst.copy() },
            StandardOp::Alloc(l) => StandardOp::Alloc(l.copy()),
            StandardOp::Free(l) => StandardOp::Free(l.copy()),
            StandardOp::Peek(l) => StandardOp::Peek(l.copy()),
            StandardOp::Poke(l) => StandardOp::Poke(l.copy()),
        }
    }

    /// Assemble this instruction, at position `index` of its program, for the
    /// core machine: a core instruction is lowered, a standard one is not
    /// supported.
    pub fn assemble(&self, index: usize, target: &mut Assembler) -> (r: Result<(), Error>)
        requires
            old(target).wf(),
        ensures
            match lower_op(*self, index, old(target).state()) {
                Ok((more, st)) => r is Ok && final(target).wf() && final(target).emitted@ == old(target).emitted@
                    + more && final(target).state() == st,
                Err(e) => r == Err::<(), Error>(e),
            },
    {
        let ghost t = target.emitted@;
        match self {
            StandardOp::CoreOp(c) => {
                let r = target.assemble_core(c, index, Ghost(t));
                if r.is_ok() {
                    proof {
                        let more = lower_core(*c, index, old(target).state())->Ok_0.0;
                        target.emitted = Ghost(t + more);
                    }
                }
                r
            },
            _ => Err(Error::UnsupportedInstruction(self.copy())),
        }
    }
}

/// The lowering of a sequence of instructions, each at its position.
pub open spec fn lower_seq(ops: Seq<StandardOp>, st: AsmState) -> Result<(Seq<Emit>, AsmState), Error>
    decreases ops.len(),
{
    if ops.len() == 0 {
        Ok((Seq::empty(), st))
    } else {
        match lower_seq(ops.drop_last(), st) {
            Ok((t, s)) => match lower_op(ops.last(), (ops.len() - 1) as usize, s) {
                Ok((more, s2)) => Ok((t + more, s2)),
                Err(e) => Err(e),
            },
            Err(e) => Err(e),
        }
    }
}

/// The frame pointer stack starts at register `F`; the stack starts
/// `depth` cells after it, and the frame pointer at the stack.
pub open spec fn prelude_ops(depth: i64) -> Seq<StandardOp> {
    seq![
        StandardOp::CoreOp(CoreOp::GetAddress { addr: Location::Address(8), dst: Location::Address(9) }),
        StandardOp::CoreOp(CoreOp::GetAddress {
            addr: Location::Offset(Box::new(Location::Indirect(Box::new(Location::Address(9)))), depth),
            dst: sp(),
        }),
        StandardOp::CoreOp(CoreOp::Move { src: sp(), dst: Location::Address(1) }),
    ]
}

/// The core instruction that opened a scope.
pub open spec fn opener(ops: Seq<StandardOp>, k: int) -> CoreOp {
    if 0 <= k < ops.len() {
        match ops[k] {
            StandardOp::CoreOp(c) => c,
            _ => CoreOp::End,
        }
    } else {
        CoreOp::End
    }
}

/// The code of a whole program: the prelude, then each instruction; a scope
/// left open is `Unmatched` with its opener and the end of the program.
pub open spec fn assembled(ops: Seq<StandardOp>, depth: usize) -> Result<Seq<Emit>, Error> {
    if depth > i64::MAX {
        Err(Error::SizeOverflow)
    } else {
        match lower_seq(prelude_ops(depth as i64), AsmState { open: Seq::empty(), labels: Seq::empty() }) {
            Err(e) => Err(e),
            Ok((p, s)) => match lower_seq(ops, s) {
                Err(e) => Err(e),
                Ok((t, s2)) => if s2.open.len() > 0 {
                    Err(Error::Unmatched(Box::new(opener(ops, s2.open.last().0 as int)), ops.len() as usize))
                } else {
                    Ok(p + t)
                },
            },
        }
    }
}

/// Whether flattening accepts some code: every `End` closes a scope.
pub fn is_well_scoped(code: &Vec<vm::CoreOp>) -> (r: bool)
    ensures
        r == well_scoped(code@),
{
    let mut open: usize = 0;
    let mut saved: Vec<usize> = Vec::new();
    for i in 0..code.len()
        invariant
            well_scoped(code@.take(i as int)),
            flatten_walk(code@.take(i as int))->0.open == open as int,
            flatten_walk(code@.take(i as int))->0.saved.len() == saved@.len(),
            forall|j: int|
                0 <= j < saved@.len() ==> #[trigger] saved@[j] as int == flatten_walk(code@.take(i as int))->0.saved[j].1,
            open <= i,
            forall|j: int| 0 <= j < saved@.len() ==> #[trigger] saved@[j] <= i,
    {
        let ghost st = flatten_walk(code@.take(i as int))->0;
        let ghost prev = saved@;
        proof {
            assert(code@.take(i + 1).drop_last() =~= code@.take(i as int));
            assert(code@.take(i + 1).last() == code@[i as int]);
            assert(flatten_walk(code@.take(i + 1)) == crate::vm::flatten_step(st, code@[i as int]));
        }
        match &code[i] {
            vm::CoreOp::Function => {
                saved.push(open);
                open = 0;
                proof {
                    let nx = crate::vm::flatten_step(st, code@[i as int])->0;
                    assert forall|j: int| 0 <= j < saved@.len() implies #[trigger] saved@[j] as int == nx.saved[j].1 by {
                        if j < prev.len() {
                            assert(nx.saved[j] == st.saved[j]);
                            assert(saved@[j] == prev[j]);
                        }
                    }
                }
            },
            vm::CoreOp::If | vm::CoreOp::While => {
                open = open + 1;
            },
            vm::CoreOp::End => {
                if open > 0 {
                    open = open - 1;
                } else if saved.len() == 0 {
                    proof {
                        if well_scoped(code@) {
                            crate::vm::lemma_walk_prefix(code@, i + 1);
                        }
                    }
                    return false;
                } else {
                    proof {
                        assert(st.saved.last() == st.saved[st.saved.len() - 1]);
                    }
                    open = saved.pop().unwrap();
                    proof {
                        let nx = flatten_walk(code@.take(i + 1))->0;
                        assert(st.open == 0 && st.saved.len() > 0);
                        assert(nx.saved == st.saved.drop_last());
                        assert(nx.open == st.saved.last().1);
                        assert(saved@ =~= prev.drop_last());
                        assert forall|j: int| 0 <= j < saved@.len() implies #[trigger] saved@[j] as int == nx.saved[j].1 by {
                            assert(nx.saved[j] == st.saved[j]);
                            assert(saved@[j] == prev[j]);
                            assert(prev[j] as int == st.saved[j].1);
                        }
                    }
                }
            },
            _ => {},
        }
    }
    proof {
        assert(code@.take(code@.len() as int) =~= code@);
    }
    true
}

/// Some code that the template asks for is well scoped, short enough to
/// flatten, and flattens to `flat`.
pub open spec fn flattens_to(t: Seq<Emit>, flat: Seq<vm::CoreOp>) -> bool {
    exists|code: Seq<vm::CoreOp>|
        #![trigger matches_emit(code, t)]
        matches_emit(code, t) && well_scoped(code) && code.len() < i32::MAX && flat == flat_code(
            function_bodies(code),
        )
}

/// Some code that the template asks for cannot be flattened.
pub open spec fn unflattenable(t: Seq<Emit>) -> bool {
    exists|code: Seq<vm::CoreOp>|
        #![trigger matches_emit(code, t)]
        matches_emit(code, t) && !(well_scoped(code) && code.len() < i32::MAX)
}

impl AssemblyProgram {
    #[verifier::rlimit(50)]
    /// Assemble this program for the core machine, with room for
    /// `allowed_recursion_depth` saved frame pointers, and flatten it.
    pub fn assemble(&self, allowed_recursion_depth: usize) -> (r: Result<vm::CoreProgram, Error>)
        ensures
            match assembled(self.ops@, allowed_recursion_depth) {
                Err(e) => r == Err::<vm::CoreProgram, Error>(e),
                Ok(t) => match r {
                    Ok(p) => flattens_to(t, p.0@),
                    Err(e) => e == Error::SizeOverflow && unflattenable(t),
                },
            },
    {
        if allowed_recursion_depth as u128 > i64::MAX as u128 {
            return Err(Error::SizeOverflow);
        }
        let depth = allowed_recursion_depth as i64;
        let prelude: Vec<StandardOp> = vec![
            StandardOp::CoreOp(CoreOp::GetAddress { addr: Location::Address(8), dst: Location::Address(9) }),
            StandardOp::CoreOp(CoreOp::GetAddress {
                addr: Location::Offset(Box::new(Location::Indirect(Box::new(Location::Address(9)))), depth),
                dst: Location::Address(0),
            }),
            StandardOp::CoreOp(CoreOp::Move { src: Location::Address(0), dst: Location::Address(1) }),
        ];
        assert(prelude@ =~= prelude_ops(depth));
        let mut target = Assembler::new();
        let ghost init = target.state();
        let ghost p = match lower_seq(prelude@, init) {
            Ok((p, _)) => p,
            Err(_) => Seq::empty(),
        };
        match lower_all(&prelude, &mut target) {
            Ok(()) => {},
            Err(e) => {
                return Err(e);
            },
        }
        let ghost s = target.state();
        match lower_all(&self.ops, &mut target) {
            Ok(()) => {},
            Err(e) => {
                return Err(e);
            },
        }
        if target.open.len() > 0 {
            let k = target.open[target.open.len() - 1].0;
            proof {
                assert(target.open@.last() == target.open@[target.open@.len() - 1]);
            }
            let op = if k < self.ops.len() {
                match &self.ops[k] {
                    StandardOp::CoreOp(c) => c.copy(),
                    _ => CoreOp::End,
                }
            } else {
                CoreOp::End
            };
            return Err(Error::Unmatched(Box::new(op), self.ops.len()));
        }
        let ghost t = match lower_seq(self.ops@, s) {
            Ok((t, _)) => t,
            Err(_) => Seq::empty(),
        };
        let ghost full = target.code@;
        assert(target.emitted@ =~= p + t);
        assert(matches_emit(full, p + t));
        assert(assembled(self.ops@, allowed_recursion_depth) == Ok::<Seq<Emit>, Error>(p + t));
        let ghost all = p + t;
        if target.code.len() as u128 >= i32::MAX as u128 || !is_well_scoped(&target.code) {
            proof {
                assert(matches_emit(full, all) && !(well_scoped(full) && full.len() < i32::MAX));
                assert(unflattenable(all));
            }
            return Err(Error::SizeOverflow);
        }
        let flat = vm::CoreProgram(target.code).flatten();
        proof {
            assert(matches_emit(full, all) && well_scoped(full) && full.len() < i32::MAX && flat.0@ == flat_code(
                function_bodies(full),
            ));
            assert(flattens_to(all, flat.0@));
        }
        Ok(flat)
    }
}

/// Lower instructions in order into an assembler.
fn lower_all(ops: &Vec<StandardOp>, target: &mut Assembler) -> (r: Result<(), Error>)
    requires
        old(target).wf(),
    ensures
        match lower_seq(ops@, old(target).state()) {
            Ok((more, st)) => r is Ok && final(target).wf() && final(target).emitted@ == old(target).emitted@ + more
                && final(target).state() == st,
            Err(e) => r == Err::<(), Error>(e),
        },
{
    let ghost s0 = target.state();
    let ghost t0 = target.emitted@;
    let ghost mut t: Seq<Emit> = Seq::empty();
    proof {
        assert(ops@.take(0) =~= Seq::<StandardOp>::empty());
        assert(t0 + t =~= t0);
    }
    for i in 0..ops.len()
        invariant
            s0 == old(target).state(),
            t0 == old(target).emitted@,
            lower_seq(ops@.take(i as int), s0) == Ok::<(Seq<Emit>, AsmState), Error>((t, target.state())),
            target.emitted@ == t0 + t,
            target.wf(),
    {
        proof {
            assert(ops@.take(i + 1).drop_last() =~= ops@.take(i as int));
            assert(ops@.take(i + 1).last() == ops@[i as int]);
        }
        let ghost before = target.state();
        match ops[i].assemble(i, target) {
            Ok(()) => {},
            Err(e) => {
                proof {
                    assert(lower_seq(ops@.take(i + 1), s0) == Err::<(Seq<Emit>, AsmState), Error>(e));
                    lemma_lower_seq_err(ops@, s0, i + 1);
                }
                return Err(e);
            },
        }
        proof {
            let more = lower_op(ops@[i as int], i, before)->Ok_0.0;
            assert(t0 + t + more =~= t0 + (t + more));
            t = t + more;
        }
    }
    proof {
        assert(ops@.take(ops@.len() as int) =~= ops@);
    }
    Ok(())
}

proof fn lemma_lower_seq_err(ops: Seq<StandardOp>, st: AsmState, n: int)
    requires
        0 < n <= ops.len(),
        lower_seq(ops.take(n), st) is Err,
    ensures
        lower_seq(ops, st) == lower_seq(ops.take(n), st),
    decreases ops.len() - n,
{
    if n < ops.len() {
        assert(ops.take(n + 1).drop_last() =~= ops.take(n));
        lemma_lower_seq_err(ops, st, n + 1);
    } else {
        assert(ops.take(n) =~= ops);
    }
}

/// The scope structure of a program: its core instructions, with every
/// standard one standing as an instruction that opens and closes nothing.
pub open spec fn core_view(ops: Seq<StandardOp>) -> Seq<CoreOp> {
    ops.map_values(|op: StandardOp| match op {
        StandardOp::CoreOp(c) => c,
        _ => CoreOp::Return,
    })
}

pub open spec fn open_positions(st: AsmState) -> Seq<int> {
    st.open.map_values(|e: (usize, Option<Location>)| e.0 as int)
}

/// Lowering tracks the scopes the way `open_scopes` counts them: where it
/// succeeds the same scopes are open, and where it finds an `End` that closes
/// nothing the scopes are unbalanced.
/// What lowering one core instruction does to the open scopes.
#[verifier::rlimit(100)]
proof fn lemma_lower_core_scopes(c: CoreOp, index: usize, st: AsmState)
    ensures
        lower_core(c, index, st) is Ok ==> {
            let s2 = lower_core(c, index, st)->Ok_0.1;
            &&& opens_scope(c) ==> s2.open == st.open.push((s2.open.last().0, s2.open.last().1)) && s2.open.last().0
                == index
            &&& c is End ==> st.open.len() > 0 && s2.open == st.open.drop_last()
            &&& !opens_scope(c) && !(c is End) ==> s2.open == st.open
        },
        lower_core(c, index, st) is Err && lower_core(c, index, st)->Err_0 is Unmatched ==> c is End && st.open.len()
            == 0,
{
    reveal(lower_core);
    if op_reachable(c) {
        match c {
            CoreOp::Fn(_) | CoreOp::If(_) | CoreOp::While(_) => {
                let s2 = lower_core(c, index, st)->Ok_0.1;
                assert(s2.open.last() == (s2.open.last().0, s2.open.last().1));
            },
            _ => {},
        }
    }
}

proof fn lemma_lower_tracks_scopes(ops: Seq<StandardOp>, st: AsmState)
    requires
        st.open.len() == 0,
        ops.len() <= usize::MAX,
    ensures
        lower_seq(ops, st) is Ok ==> open_scopes(core_view(ops)) == Ok::<Seq<int>, nat>(
            open_positions(lower_seq(ops, st)->Ok_0.1),
        ),
        lower_seq(ops, st) is Err && lower_seq(ops, st)->Err_0 is Unmatched ==> open_scopes(core_view(ops)) is Err,
    decreases ops.len(),
{
    if ops.len() == 0 {
        assert(open_positions(st) =~= Seq::<int>::empty());
    } else {
        let init = ops.drop_last();
        lemma_lower_tracks_scopes(init, st);
        assert(core_view(ops).drop_last() =~= core_view(init));
        let k = ops.len() - 1;
        assert(core_view(ops).last() == core_view(ops)[k]);
        match lower_seq(init, st) {
            Ok((t, s)) => {
                let op = ops.last();
                let pos = open_positions(s);
                if let StandardOp::CoreOp(c) = op {
                    lemma_lower_core_scopes(c, k as usize, s);
                }
                match lower_op(op, k as usize, s) {
                    Ok((more, s2)) => {
                        match op {
                            StandardOp::CoreOp(c) => {
                                if opens_scope(c) {
                                    assert(open_positions(s2) =~= pos.push(k));
                                } else if c is End {
                                    assert(open_positions(s2) =~= pos.drop_last());
                                } else {
                                    assert(open_positions(s2) =~= pos);
                                }
                            },
                            _ => {},
                        }
                    },
                    Err(e) => {},
                }
            },
            Err(e) => {},
        }
    }
}

/// Assembling finds an `Unmatched` scope only in a program whose `Fn`, `If`,
/// `While` and `End` do not balance; a balanced program is never
/// `Unmatched`; and a program that assembles is balanced.
pub proof fn lemma_assemble_unmatched_iff_unbalanced(ops: Seq<StandardOp>, depth: usize)
    requires
        ops.len() <= usize::MAX,
    ensures
        assembled(ops, depth) is Err && assembled(ops, depth)->Err_0 is Unmatched ==> !balanced(core_view(ops)),
        balanced(core_view(ops)) ==> !(assembled(ops, depth) is Err && assembled(ops, depth)->Err_0 is Unmatched),
        assembled(ops, depth) is Ok ==> balanced(core_view(ops)),
{
    if depth <= i64::MAX {
        let init = AsmState { open: Seq::empty(), labels: Seq::empty() };
        let pre = prelude_ops(depth as i64);
        lemma_lower_tracks_scopes(pre, init);
        reveal(lower_core);
        if lower_seq(pre, init) is Ok {
            let s = lower_seq(pre, init)->Ok_0.1;
            assert(core_view(pre).len() == 3);
            reveal_with_fuel(open_scopes, 4);
            assert(core_view(pre).drop_last().drop_last().drop_last() =~= Seq::<CoreOp>::empty());
            assert(open_scopes(core_view(pre)) == Ok::<Seq<int>, nat>(Seq::empty()));
            assert(open_positions(s).len() == 0);
            assert(s.open.len() == 0);
            lemma_lower_tracks_scopes(ops, s);
            if lower_seq(ops, s) is Ok {
                let s2 = lower_seq(ops, s)->Ok_0.1;
                if s2.open.len() > 0 {
                    assert(open_positions(s2).len() > 0);
                } else {
                    assert(open_positions(s2) =~= Seq::<int>::empty());
                }
            }
        } else {
            // The prelude's moves are fixed; a depth it cannot reach fails
            // with an unsupported instruction, never `Unmatched`.
            assert(pre.len() == 3);
            assert(pre.drop_last().drop_last().drop_last() =~= Seq::<StandardOp>::empty());
            assert(pre.drop_last().drop_last().last() == pre[0]);
            assert(pre.drop_last().last() == pre[1]);
            assert(pre.last() == pre[2]);
        }
    }
}

} // verus!
