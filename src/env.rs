//! # Environment
//!
//! The scope an expression is compiled under: the types, constants,
//! procedures and variables defined in it, and the frame pointer offsets of
//! its variables. Entering a scope shares the enclosing tables; defining a
//! name adds a binding in front of the shared ones, so an enclosing scope never
//! sees what an inner one defines.
use crate::assembly::{code_effect, AssemblyProgram, CoreOp, StandardOp};
use crate::error::Error;
use crate::lir::{ConstExpr, Procedure, Type};
use crate::size::{size_result, type_size, SIZE_FUEL};
use std::rc::Rc;
use vstd::prelude::*;

verus! {

/// One binding of a scoped table, and the bindings it shadows.
pub struct Entry<V> {
    pub name: String,
    pub value: V,
    pub next: Option<Rc<Entry<V>>>,
}

/// What a chain of bindings maps each name to: its newest binding.
pub open spec fn chain_map<V>(e: Option<Rc<Entry<V>>>) -> Map<Seq<char>, V>
    decreases e,
{
    match e {
        Some(rc) => chain_map(rc.next).insert(rc.name@, rc.value),
        None => Map::empty(),
    }
}

fn chain_get<'a, V>(e: &'a Option<Rc<Entry<V>>>, name: &String) -> (r: Option<&'a V>)
    ensures
        match r {
            Some(v) => chain_map(*e).contains_key(name@) && *v == chain_map(*e)[name@],
            None => !chain_map(*e).contains_key(name@),
        },
    decreases *e,
{
    match e {
        Some(rc) => {
            if rc.name == *name {
                Some(&rc.value)
            } else {
                chain_get(&rc.next, name)
            }
        },
        None => None,
    }
}

/// A table of names that can be shared between scopes in constant time.
pub struct Table<V> {
    head: Option<Rc<Entry<V>>>,
}

impl<V> View for Table<V> {
    type V = Map<Seq<char>, V>;

    closed spec fn view(&self) -> Map<Seq<char>, V> {
        chain_map(self.head)
    }
}

impl<V> Table<V> {
    /// A table with no names.
    pub fn new() -> (r: Self)
        ensures
            r@ == Map::<Seq<char>, V>::empty(),
    {
        Table { head: None }
    }

    /// The same table, sharing its bindings.
    pub fn share(&self) -> (r: Self)
        ensures
            r@ == self@,
    {
        match &self.head {
            Some(rc) => Table { head: Some(Rc::clone(rc)) },
            None => Table { head: None },
        }
    }

    /// Bind a name, shadowing any earlier binding of it.
    pub fn define(&mut self, name: String, value: V)
        ensures
            final(self)@ == old(self)@.insert(name@, value),
    {
        let next = self.head.take();
        self.head = Some(Rc::new(Entry { name, value, next }));
    }

    /// The value bound to a name.
    pub fn get(&self, name: &str) -> (r: Option<&V>)
        ensures
            match r {
                Some(v) => self@.contains_key(name@) && *v == self@[name@],
                None => !self@.contains_key(name@),
            },
    {
        let key = name.to_owned();
        chain_get(&self.head, &key)
    }
}

/// An environment under which expressions and types are compiled and
/// typechecked: essentially the scope of an expression.
pub struct Env {
    /// The types defined under the environment.
    types: Table<Type>,
    /// The constants defined under the environment.
    consts: Table<ConstExpr>,
    /// The procedures defined under the environment.
    procs: Table<Procedure>,
    /// The variables defined under the environment, with their frame offsets.
    vars: Table<(Type, i64)>,
    /// The frame pointer offset of the next variable to define.
    fp_offset: i64,
    /// The size of the arguments of the current procedure, in cells.
    args_size: usize,
}

impl Env {
    pub closed spec fn type_table(&self) -> Map<Seq<char>, Type> {
        self.types@
    }

    pub closed spec fn const_table(&self) -> Map<Seq<char>, ConstExpr> {
        self.consts@
    }

    pub closed spec fn proc_table(&self) -> Map<Seq<char>, Procedure> {
        self.procs@
    }

    pub closed spec fn var_table(&self) -> Map<Seq<char>, (Type, i64)> {
        self.vars@
    }

    /// The frame pointer offset that the next variable defined will get.
    pub closed spec fn next_offset(&self) -> i64 {
        self.fp_offset
    }

    pub closed spec fn args_total(&self) -> usize {
        self.args_size
    }

    /// An environment with nothing defined.
    pub fn new() -> (r: Self)
        ensures
            r.type_table() == Map::<Seq<char>, Type>::empty(),
            r.const_table() == Map::<Seq<char>, ConstExpr>::empty(),
            r.proc_table() == Map::<Seq<char>, Procedure>::empty(),
            r.var_table() == Map::<Seq<char>, (Type, i64)>::empty(),
            r.next_offset() == 1,
            r.args_total() == 0,
    {
        Env {
            types: Table::new(),
            consts: Table::new(),
            procs: Table::new(),
            vars: Table::new(),
            // The last argument is at `[FP]`, so the first variable is at `[FP + 1]`.
            fp_offset: 1,
            args_size: 0,
        }
    }

    /// A new scope: the same types, constants and procedures, but no
    /// variables or arguments.
    pub fn new_scope(&self) -> (r: Self)
        ensures
            r.type_table() == self.type_table(),
            r.const_table() == self.const_table(),
            r.proc_table() == self.proc_table(),
            r.var_table() == Map::<Seq<char>, (Type, i64)>::empty(),
            r.next_offset() == 1,
            r.args_total() == 0,
    {
        Env {
            types: self.types.share(),
            consts: self.consts.share(),
            procs: self.procs.share(),
            vars: Table::new(),
            fp_offset: 1,
            args_size: 0,
        }
    }

    /// Define a type with a given name under this environment.
    pub fn define_type(&mut self, name: &str, ty: Type)
        ensures
            final(self).type_table() == old(self).type_table().insert(name@, ty),
            final(self).const_table() == old(self).const_table(),
            final(self).proc_table() == old(self).proc_table(),
            final(self).var_table() == old(self).var_table(),
            final(self).next_offset() == old(self).next_offset(),
            final(self).args_total() == old(self).args_total(),
    {
        self.types.define(name.to_owned(), ty);
    }

    /// Get a type definition from this environment.
    pub fn get_type(&self, name: &str) -> (r: Option<&Type>)
        ensures
            match r {
                Some(t) => self.type_table().contains_key(name@) && *t == self.type_table()[name@],
                None => !self.type_table().contains_key(name@),
            },
    {
        self.types.get(name)
    }

    /// Define a constant with a given name under this environment.
    pub fn define_const(&mut self, name: &str, e: ConstExpr)
        ensures
            final(self).const_table() == old(self).const_table().insert(name@, e),
            final(self).type_table() == old(self).type_table(),
            final(self).proc_table() == old(self).proc_table(),
            final(self).var_table() == old(self).var_table(),
            final(self).next_offset() == old(self).next_offset(),
            final(self).args_total() == old(self).args_total(),
    {
        self.consts.define(name.to_owned(), e);
    }

    /// Get a constant definition from this environment.
    pub fn get_const(&self, name: &str) -> (r: Option<&ConstExpr>)
        ensures
            match r {
                Some(c) => self.const_table().contains_key(name@) && *c == self.const_table()[name@],
                None => !self.const_table().contains_key(name@),
            },
    {
        self.consts.get(name)
    }

    /// Define a procedure with a given name under this environment.
    pub fn define_proc(&mut self, name: &str, proc: Procedure)
        ensures
            final(self).proc_table() == old(self).proc_table().insert(name@, proc),
            final(self).type_table() == old(self).type_table(),
            final(self).const_table() == old(self).const_table(),
            final(self).var_table() == old(self).var_table(),
            final(self).next_offset() == old(self).next_offset(),
            final(self).args_total() == old(self).args_total(),
    {
        self.procs.define(name.to_owned(), proc);
    }

    /// Get a procedure definition from this environment.
    pub fn get_proc(&self, name: &str) -> (r: Option<&Procedure>)
        ensures
            match r {
                Some(p) => self.proc_table().contains_key(name@) && *p == self.proc_table()[name@],
                None => !self.proc_table().contains_key(name@),
            },
    {
        self.procs.get(name)
    }

    /// Does this environment have a procedure with the given name?
    pub fn has_proc(&self, name: &str) -> (r: bool)
        ensures
            r == self.proc_table().contains_key(name@),
    {
        self.procs.get(name).is_some()
    }

    /// Push the label of a procedure onto the stack, and mark the procedure
    /// compiled. Returns whether this is its first use: then its body has yet
    /// to be emitted under that label.
    pub fn push_proc(&mut self, name: &str, output: &mut AssemblyProgram) -> (r: Result<bool, Error>)
        ensures
            final(self).type_table() == old(self).type_table(),
            final(self).const_table() == old(self).const_table(),
            final(self).var_table() == old(self).var_table(),
            final(self).next_offset() == old(self).next_offset(),
            final(self).args_total() == old(self).args_total(),
            final(output).standard == old(output).standard,
            old(self).proc_table().contains_key(name@) ==> {
                let p = old(self).proc_table()[name@];
                &&& r == Ok::<bool, Error>(!p.compiled)
                &&& final(self).proc_table() == old(self).proc_table().insert(
                    name@,
                    Procedure { compiled: true, ..p },
                )
                &&& final(output).ops@ == old(output).ops@.push(
                    StandardOp::CoreOp(CoreOp::PushLabel(p.label)),
                )
                &&& code_effect(final(output).ops@) == code_effect(old(output).ops@) + 1
            },
            !old(self).proc_table().contains_key(name@) ==> {
                &&& r is Err
                &&& r->Err_0 is SymbolNotDefined
                &&& r->Err_0->SymbolNotDefined_0@ == name@
                &&& final(self).proc_table() == old(self).proc_table()
                &&& final(output).ops@ == old(output).ops@
            },
    {
        let found = match self.procs.get(name) {
            Some(p) => Some(p.copy()),
            None => None,
        };
        match found {
            Some(p) => {
                let first = !p.compiled;
                let label = p.label;
                let p = Procedure { compiled: true, ..p };
                self.procs.define(name.to_owned(), p);
                let ghost before = output.ops@;
                output.op(CoreOp::PushLabel(label));
                proof {
                    assert(output.ops@.drop_last() =~= before);
                }
                Ok(first)
            },
            None => Err(Error::SymbolNotDefined(name.to_owned())),
        }
    }

    /// The size of the arguments of the current procedure, in cells.
    pub fn get_args_size(&self) -> (r: usize)
        ensures
            r == self.args_total(),
    {
        self.args_size
    }

    /// A variable's type and its offset from the frame pointer.
    pub fn get_var(&self, var: &str) -> (r: Option<&(Type, i64)>)
        ensures
            match r {
                Some(v) => self.var_table().contains_key(var@) && *v == self.var_table()[var@],
                None => !self.var_table().contains_key(var@),
            },
    {
        self.vars.get(var)
    }
}

/// The size of a type in cells, as `get_size` computes it.
pub open spec fn size_of(env: Env, t: Type) -> Result<nat, Error> {
    type_size(env.type_table(), env.const_table(), Seq::empty(), t, SIZE_FUEL as nat)
}

/// The variables of a procedure's arguments laid out below the frame pointer,
/// the last argument first: each one ends just below where the one after it
/// begins, and the last ends at the frame pointer. Gives the variables and the
/// total size of the arguments.
pub open spec fn layout_args(
    env: Env,
    args: Seq<(String, Type)>,
    vars: Map<Seq<char>, (Type, i64)>,
    offset: int,
    total: nat,
) -> Result<(Map<Seq<char>, (Type, i64)>, nat), Error>
    decreases args.len(),
{
    if args.len() == 0 {
        Ok((vars, total))
    } else {
        let (name, t) = args.last();
        match size_of(env, t) {
            Ok(s) => if total + s > usize::MAX || offset - s < i64::MIN {
                Err(Error::SizeOverflow)
            } else {
                layout_args(
                    env,
                    args.drop_last(),
                    vars.insert(name@, (t, (offset - s) as i64)),
                    offset - s,
                    total + s,
                )
            },
            Err(e) => Err(e),
        }
    }
}

impl Env {
    /// Define a variable in the current scope, at the next free offset from
    /// the frame pointer, and move that offset past it. Returns the variable's
    /// offset.
    pub fn define_var(&mut self, var: &str, t: Type) -> (r: Result<i64, Error>)
        ensures
            final(self).type_table() == old(self).type_table(),
            final(self).const_table() == old(self).const_table(),
            final(self).proc_table() == old(self).proc_table(),
            final(self).args_total() == old(self).args_total(),
            match r {
                Ok(offset) => {
                    &&& size_of(*old(self), t) is Ok
                    &&& offset == old(self).next_offset()
                    &&& final(self).next_offset() == old(self).next_offset() + size_of(*old(self), t)->Ok_0
                    &&& final(self).var_table() == old(self).var_table().insert(var@, (t, offset))
                },
                Err(e) => {
                    &&& final(self).var_table() == old(self).var_table()
                    &&& final(self).next_offset() == old(self).next_offset()
                    &&& match size_of(*old(self), t) {
                        Ok(s) => e == Error::SizeOverflow && old(self).next_offset() + s > i64::MAX,
                        Err(e2) => e == e2,
                    }
                },
            },
    {
        let size = match t.get_size(self) {
            Ok(s) => s,
            Err(e) => {
                return Err(e);
            },
        };
        let next = self.fp_offset as i128 + size as i128;
        if next > i64::MAX as i128 {
            return Err(Error::SizeOverflow);
        }
        let offset = self.fp_offset;
        self.fp_offset = next as i64;
        self.vars.define(var.to_owned(), (t, offset));
        Ok(offset)
    }

    /// Define the arguments of the procedure this scope is the body of: the
    /// last argument ends at the frame pointer and each one before it ends
    /// where the next begins. The next variable goes at offset 1. Returns the
    /// total size of the arguments; on an error nothing is defined.
    pub fn define_args(&mut self, args: Vec<(String, Type)>) -> (r: Result<usize, Error>)
        ensures
            final(self).type_table() == old(self).type_table(),
            final(self).const_table() == old(self).const_table(),
            final(self).proc_table() == old(self).proc_table(),
            match layout_args(*old(self), args@, old(self).var_table(), 1, 0) {
                Ok((vars, total)) => {
                    &&& r == Ok::<usize, Error>(total as usize)
                    &&& final(self).var_table() == vars
                    &&& final(self).next_offset() == 1
                    &&& final(self).args_total() == total
                },
                Err(e) => {
                    &&& r == Err::<usize, Error>(e)
                    &&& final(self).var_table() == old(self).var_table()
                    &&& final(self).next_offset() == old(self).next_offset()
                    &&& final(self).args_total() == old(self).args_total()
                },
            },
    {
        match self.layout(args, self.vars.share(), 1, 0) {
            Ok((vars, total)) => {
                self.vars = vars;
                self.fp_offset = 1;
                self.args_size = total;
                Ok(total)
            },
            Err(e) => Err(e),
        }
    }

    /// Lay out the arguments that remain, the last first, below `offset`.
    fn layout(&self, rest: Vec<(String, Type)>, vars: Table<(Type, i64)>, offset: i64, total: usize) -> (r:
        Result<(Table<(Type, i64)>, usize), Error>)
        ensures
            match layout_args(*self, rest@, vars@, offset as int, total as nat) {
                Ok((m, t)) => r is Ok && r->Ok_0.0@ == m && r->Ok_0.1 == t,
                Err(e) => r == Err::<(Table<(Type, i64)>, usize), Error>(e),
            },
        decreases rest@.len(),
    {
        if rest.len() == 0 {
            return Ok((vars, total));
        }
        let mut rest = rest;
        let ghost before = rest@;
        let (name, t) = rest.pop().unwrap();
        proof {
            assert(before.drop_last() =~= rest@);
        }
        let size = match t.get_size(self) {
            Ok(s) => s,
            Err(e) => {
                return Err(e);
            },
        };
        if total as u128 + size as u128 > usize::MAX as u128 || (offset as i128 - size as i128)
            < i64::MIN as i128 {
            return Err(Error::SizeOverflow);
        }
        let offset = (offset as i128 - size as i128) as i64;
        let mut vars = vars;
        vars.define(name, (t, offset));
        self.layout(rest, vars, offset, total + size)
    }
}

impl Default for Env {
    fn default() -> (r: Self)
        ensures
            r.type_table() == Map::<Seq<char>, Type>::empty(),
            r.const_table() == Map::<Seq<char>, ConstExpr>::empty(),
            r.proc_table() == Map::<Seq<char>, Procedure>::empty(),
            r.var_table() == Map::<Seq<char>, (Type, i64)>::empty(),
            r.next_offset() == 1,
            r.args_total() == 0,
    {
        Env::new()
    }
}

} // verus!
