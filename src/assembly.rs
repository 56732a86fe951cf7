//! The assembly language: symbolic memory locations, core and standard
//! assembly instructions, and programs that collect them.
use crate::error::Error;
use vstd::prelude::*;

verus! {

/// A symbolic place in memory.
#[derive(Debug, PartialEq, Eq)]
pub enum Location {
    /// A fixed cell of the machine, such as a register.
    Address(i64),
    /// A cell named by the program.
    Global(String),
    /// The cell whose address is held in a location.
    Indirect(Box<Location>),
    /// The cell some cells past a location.
    Offset(Box<Location>, i64),
}

impl Location {
    /// The stack pointer.
    pub fn sp() -> (r: Location)
        ensures
            r == Location::Address(0),
    {
        Location::Address(0)
    }

    /// The frame pointer.
    pub fn fp() -> (r: Location)
        ensures
            r == Location::Address(1),
    {
        Location::Address(1)
    }

    /// Spill register `A`.
    pub fn a() -> (r: Location)
        ensures
            r == Location::Address(3),
    {
        Location::Address(3)
    }

    /// Spill register `B`.
    pub fn b() -> (r: Location)
        ensures
            r == Location::Address(4),
    {
        Location::Address(4)
    }

    /// The cell this location points to.
    pub fn deref(self) -> (r: Location)
        ensures
            r == Location::Indirect(Box::new(self)),
    {
        Location::Indirect(Box::new(self))
    }

    /// The cell `n` cells past this one.
    pub fn offset(self, n: i64) -> (r: Location)
        ensures
            r == Location::Offset(Box::new(self), n),
    {
        Location::Offset(Box::new(self), n)
    }
}

/// A core assembly instruction.
#[derive(Debug, PartialEq, Eq)]
pub enum CoreOp {
    Comment(String),
    /// Open the body of the procedure with a label.
    Fn(usize),
    /// Push the label of a procedure onto the stack.
    PushLabel(usize),
    /// Call the procedure whose label is in a location.
    Call(Location),
    Return,
    /// Open a conditional on a location being non-zero.
    If(Location),
    Else,
    /// Open a loop that runs while a location is non-zero.
    While(Location),
    End,
    /// Set a location to a constant.
    SetValue(Location, i64),
    /// Copy one location to another.
    Move { src: Location, dst: Location },
    /// Store the address of a location in another.
    GetAddress { addr: Location, dst: Location },
    /// Push cells starting at a location onto the stack.
    Push(Location, usize),
    /// Pop cells off the stack, into a location or nowhere.
    Pop(Option<Location>, usize),
    Inc(Location),
    Dec(Location),
    Add { src: Location, dst: Location },
    Sub { src: Location, dst: Location },
    Mul { src: Location, dst: Location },
    Div { src: Location, dst: Location },
    Rem { src: Location, dst: Location },
}

/// A standard assembly instruction: a core one, or one that targets may
/// lack, on floating point numbers held as the bits of their cells.
#[derive(Debug, PartialEq, Eq)]
pub enum StandardOp {
    CoreOp(CoreOp),
    /// Set a location to a floating point constant, given by its bits.
    SetValue(Location, i64),
    ToFloat(Location),
    ToInt(Location),
    Pow { src: Location, dst: Location },
    Sqrt(Location),
    Add { src: Location, dst: Location },
    Sub { src: Location, dst: Location },
    Mul { src: Location, dst: Location },
    Div { src: Location, dst: Location },
    Rem { src: Location, dst: Location },
    Neg(Location),
    Sin(Location),
    Cos(Location),
    Tan(Location),
    ASin(Location),
    ACos(Location),
    ATan(Location),
    /// Set `dst` to whether `a` is greater than `b`.
    IsGreater { a: Location, b: Location, dst: Location },
    /// Set `dst` to whether `a` is less than `b`.
    IsLess { a: Location, b: Location, dst: Location },
    Alloc(Location),
    Free(Location),
    /// Read a cell from the device into a location.
    Peek(Location),
    /// Write a location's cell to the device.
    Poke(Location),
}

/// A program of assembly instructions, for a target with or without the
/// standard instructions.
#[derive(Debug)]
pub struct AssemblyProgram {
    pub ops: Vec<StandardOp>,
    /// Whether the target has the standard instructions.
    pub standard: bool,
}

impl AssemblyProgram {
    /// An empty program.
    pub fn new(standard: bool) -> (r: AssemblyProgram)
        ensures
            r.ops@.len() == 0,
            r.standard == standard,
    {
        AssemblyProgram { ops: Vec::new(), standard }
    }

    /// Append a core instruction.
    pub fn op(&mut self, op: CoreOp)
        ensures
            final(self).ops@ == old(self).ops@.push(StandardOp::CoreOp(op)),
            final(self).standard == old(self).standard,
    {
        self.ops.push(StandardOp::CoreOp(op));
    }

    /// Append a standard instruction, where the target has them.
    pub fn std_op(&mut self, op: StandardOp) -> (r: Result<(), Error>)
        ensures
            final(self).standard == old(self).standard,
            old(self).standard ==> r is Ok && final(self).ops@ == old(self).ops@.push(op),
            !old(self).standard ==> r == Err::<(), Error>(Error::UnsupportedInstruction(op))
                && final(self).ops@ == old(self).ops@,
    {
        if self.standard {
            self.ops.push(op);
            Ok(())
        } else {
            Err(Error::UnsupportedInstruction(op))
        }
    }
}

/// How many cells an instruction pushes onto the stack (negative: pops).
pub open spec fn stack_effect(op: StandardOp) -> int {
    match op {
        StandardOp::CoreOp(CoreOp::Push(_, n)) => n as int,
        StandardOp::CoreOp(CoreOp::Pop(_, n)) => -(n as int),
        StandardOp::CoreOp(CoreOp::PushLabel(_)) => 1,
        _ => 0,
    }
}

/// How many cells some straight-line instructions push onto the stack in all.
pub open spec fn code_effect(ops: Seq<StandardOp>) -> int
    decreases ops.len(),
{
    if ops.len() == 0 {
        0
    } else {
        code_effect(ops.drop_last()) + stack_effect(ops.last())
    }
}

/// Whether an instruction opens a scope that an `End` closes.
pub open spec fn opens_scope(op: CoreOp) -> bool {
    op is Fn || op is If || op is While
}

/// The positions of the scopes still open after some instructions, outermost
/// first, or the index of the first `End` that closes nothing.
pub open spec fn open_scopes(ops: Seq<CoreOp>) -> Result<Seq<int>, nat>
    decreases ops.len(),
{
    if ops.len() == 0 {
        Ok(Seq::empty())
    } else {
        match open_scopes(ops.drop_last()) {
            Ok(st) => if opens_scope(ops.last()) {
                Ok(st.push(ops.len() - 1))
            } else if ops.last() is End {
                if st.len() == 0 {
                    Err((ops.len() - 1) as nat)
                } else {
                    Ok(st.drop_last())
                }
            } else {
                Ok(st)
            },
            Err(i) => Err(i),
        }
    }
}

/// Whether every `Fn`, `If` and `While` is closed by exactly one `End`.
pub open spec fn balanced(ops: Seq<CoreOp>) -> bool {
    open_scopes(ops) == Ok::<Seq<int>, nat>(Seq::empty())
}

impl Location {
    /// A copy of this location.
    pub fn copy(&self) -> (r: Location)
        ensures
            r == *self,
        decreases self,
    {
        match self {
            Location::Address(a) => Location::Address(*a),
            Location::Global(n) => Location::Global(n.clone()),
            Location::Indirect(l) => Location::Indirect(Box::new(l.copy())),
            Location::Offset(l, k) => Location::Offset(Box::new(l.copy()), *k),
        }
    }
}

impl CoreOp {
    /// A copy of this instruction.
    pub fn copy(&self) -> (r: CoreOp)
        ensures
            r == *self,
    {
        match self {
            CoreOp::Comment(s) => CoreOp::Comment(s.clone()),
            CoreOp::Fn(l) => CoreOp::Fn(*l),
            CoreOp::PushLabel(l) => CoreOp::PushLabel(*l),
            CoreOp::Call(x) => CoreOp::Call(x.copy()),
            CoreOp::Return => CoreOp::Return,
            CoreOp::If(x) => CoreOp::If(x.copy()),
            CoreOp::Else => CoreOp::Else,
            CoreOp::While(x) => CoreOp::While(x.copy()),
            CoreOp::End => CoreOp::End,
            CoreOp::SetValue(x, n) => CoreOp::SetValue(x.copy(), *n),
            CoreOp::Move { src, dst } => CoreOp::Move { src: src.copy(), dst: dst.copy() },
            CoreOp::GetAddress { addr, dst } => CoreOp::GetAddress { addr: addr.copy(), dst: dst.copy() },
            CoreOp::Push(x, n) => CoreOp::Push(x.copy(), *n),
            CoreOp::Pop(x, n) => CoreOp::Pop(
                match x {
                    Some(l) => Some(l.copy()),
                    None => None,
                },
                *n,
            ),
            CoreOp::Inc(x) => CoreOp::Inc(x.copy()),
            CoreOp::Dec(x) => CoreOp::Dec(x.copy()),
            CoreOp::Add { src, dst } => CoreOp::Add { src: src.copy(), dst: dst.copy() },
            CoreOp::Sub { src, dst } => CoreOp::Sub { src: src.copy(), dst: dst.copy() },
            CoreOp::Mul { src, dst } => CoreOp::Mul { src: src.copy(), dst: dst.copy() },
            CoreOp::Div { src, dst } => CoreOp::Div { src: src.copy(), dst: dst.copy() },
            CoreOp::Rem { src, dst } => CoreOp::Rem { src: src.copy(), dst: dst.copy() },
        }
    }
}

/// Check that the scopes of a program are balanced. The error is an
/// `Unmatched` with the first `End` that closes nothing and its index, or,
/// where scopes are left open, the innermost of them and the end of the
/// program.
pub fn check_scopes(ops: &Vec<CoreOp>) -> (r: Result<(), Error>)
    ensures
        r is Ok <==> balanced(ops@),
        match open_scopes(ops@) {
            Err(i) => r == Err::<(), Error>(Error::Unmatched(Box::new(CoreOp::End), i as usize)),
            Ok(st) => st.len() > 0 ==> r == Err::<(), Error>(
                Error::Unmatched(Box::new(ops@[st.last()]), ops@.len() as usize),
            ),
        },
{
    let mut open: Vec<usize> = Vec::new();
    for i in 0..ops.len()
        invariant
            open_scopes(ops@.take(i as int)) is Ok,
            open_scopes(ops@.take(i as int))->Ok_0 == open@.map_values(|k: usize| k as int),
            forall|j: int| 0 <= j < open@.len() ==> #[trigger] open@[j] < i,
    {
        proof {
            assert(ops@.take(i + 1).drop_last() =~= ops@.take(i as int));
            assert(ops@.take(i + 1).last() == ops@[i as int]);
        }
        let ghost before = open@;
        match &ops[i] {
            CoreOp::Fn(_) | CoreOp::If(_) | CoreOp::While(_) => {
                open.push(i);
                proof {
                    assert(open@.map_values(|k: usize| k as int) =~= before.map_values(
                        |k: usize| k as int,
                    ).push(i as int));
                }
            },
            CoreOp::End => {
                if open.len() == 0 {
                    proof {
                        lemma_unmatched_stays(ops@, i + 1);
                    }
                    return Err(Error::Unmatched(Box::new(CoreOp::End), i));
                }
                open.pop();
                proof {
                    assert(open@.map_values(|k: usize| k as int) =~= before.map_values(
                        |k: usize| k as int,
                    ).drop_last());
                }
            },
            _ => {},
        }
    }
    proof {
        assert(ops@.take(ops@.len() as int) =~= ops@);
    }
    if open.len() > 0 {
        let k = open[open.len() - 1];
        proof {
            assert(open@.map_values(|k: usize| k as int).last() == k as int);
        }
        Err(Error::Unmatched(Box::new(ops[k].copy()), ops.len()))
    } else {
        proof {
            assert(open@.map_values(|k: usize| k as int) =~= Seq::<int>::empty());
        }
        Ok(())
    }
}

/// Once an `End` closes nothing, the program stays unbalanced at that index.
proof fn lemma_unmatched_stays(ops: Seq<CoreOp>, n: int)
    requires
        0 < n <= ops.len(),
        open_scopes(ops.take(n)) is Err,
    ensures
        open_scopes(ops) == open_scopes(ops.take(n)),
    decreases ops.len() - n,
{
    if n < ops.len() {
        assert(ops.take(n + 1).drop_last() =~= ops.take(n));
        lemma_unmatched_stays(ops, n + 1);
    } else {
        assert(ops.take(n) =~= ops);
    }
}

} // verus!
