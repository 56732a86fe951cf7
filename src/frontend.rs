//! The statements and declarations of the surface language, and their
//! lowering into LIR expressions.
use crate::arithmetic::strip_annotations;
use crate::lir::decl_is_compile_time;
use crate::lir::{
    self, BinaryOp, ConstExpr, Expr, FFIProcedure, Mutability, Pattern, PolyProcedure, Procedure,
    SourceCodeLocation, Type,
};
use std::rc::Rc;
use vstd::prelude::*;

verus! {

/// A statement of the surface language.
#[derive(Debug)]
pub enum Statement {
    AnnotatedWithSource { stmt: Box<Statement>, loc: SourceCodeLocation },
    LetPattern(Vec<(Pattern, Expr)>),
    Let(Vec<(String, Mutability, Option<Type>, Expr)>),
    LetStatic(Vec<(String, Mutability, Type, ConstExpr)>),
    /// Assign to a place, with an operator for compound assignment.
    Assign(Expr, Option<BinaryOp>, Expr),
    If(Expr, Box<Statement>, Option<Box<Statement>>),
    When(ConstExpr, Box<Statement>, Option<Box<Statement>>),
    IfLet(Pattern, Expr, Box<Statement>, Option<Box<Statement>>),
    While(Expr, Box<Statement>),
    /// A loop with an initializer, a condition, a step and a body.
    For(Box<Statement>, Expr, Box<Statement>, Box<Statement>),
    Return(Expr),
    Block(Vec<Declaration>),
    LetIn(Vec<(String, Mutability, Option<Type>, Expr)>, Box<Statement>),
    LetStaticIn(Vec<(String, Mutability, Type, ConstExpr)>, Box<Statement>),
    Expr(Expr),
}

/// A declaration of the surface language.
#[derive(Debug)]
pub enum Declaration {
    Impl(Type, Vec<(String, ConstExpr)>),
    Struct(String, Vec<(String, Type)>),
    Extern(String, Vec<(Option<String>, Type)>, Type),
    Enum(String, Vec<(String, Option<Type>)>),
    Const(Vec<(String, ConstExpr)>),
    Proc(String, Vec<(String, Mutability, Type)>, Option<Type>, Box<Statement>),
    PolyProc(String, Vec<String>, Vec<(String, Mutability, Type)>, Option<Type>, Box<Statement>),
    Type(Vec<(String, Type)>),
    Statement(Statement),
    Many(Vec<Declaration>),
}

/// A whole program: its declarations in order.
#[derive(Debug)]
pub struct Program(pub Vec<Declaration>);

/// `stmt` followed by what comes after it, if anything: a sequence that
/// already follows gets `stmt` in front.
pub open spec fn followed_by(stmt: Expr, rest: Option<Expr>, r: Expr) -> bool {
    match rest {
        None => r == stmt,
        Some(Expr::Many(v)) => r is Many && r->Many_0@ == seq![stmt] + v@,
        Some(x) => r is Many && r->Many_0@ == seq![stmt, x],
    }
}

/// What comes after a statement, or `None` if nothing does.
pub open spec fn rest_or_none(rest: Option<Expr>) -> Expr {
    match rest {
        Some(e) => e,
        None => Expr::ConstExpr(ConstExpr::Void),
    }
}

/// The variable declarations of a `let`, in order.
pub open spec fn var_decls_of(d: lir::Declaration, defs: Seq<(String, Mutability, Option<Type>, Expr)>) -> bool {
    &&& d is Many
    &&& d->Many_0@.len() == defs.len()
    &&& forall|i: int|
        0 <= i < defs.len() ==> #[trigger] d->Many_0@[i] == lir::Declaration::Var(
            defs[i].0,
            defs[i].1,
            defs[i].2,
            defs[i].3,
        )
}

/// The pattern declarations of a `let`, in order.
pub open spec fn pattern_decls_of(d: lir::Declaration, defs: Seq<(Pattern, Expr)>) -> bool {
    &&& d is Many
    &&& d->Many_0@.len() == defs.len()
    &&& forall|i: int|
        0 <= i < defs.len() ==> #[trigger] d->Many_0@[i] == lir::Declaration::VarPat(defs[i].0, defs[i].1)
}

/// The static variable declarations of a `let static`, in order.
pub open spec fn static_decls_of(d: lir::Declaration, defs: Seq<(String, Mutability, Type, ConstExpr)>) -> bool {
    &&& d is Many
    &&& d->Many_0@.len() == defs.len()
    &&& forall|i: int|
        0 <= i < defs.len() ==> #[trigger] d->Many_0@[i] == lir::Declaration::StaticVar(
            defs[i].0,
            defs[i].1,
            defs[i].2,
            defs[i].3,
        )
}

/// The constant declarations of a `const`, in order.
pub open spec fn const_decls_of(d: lir::Declaration, defs: Seq<(String, ConstExpr)>) -> bool {
    &&& d is Many
    &&& d->Many_0@.len() == defs.len()
    &&& forall|i: int|
        0 <= i < defs.len() ==> #[trigger] d->Many_0@[i] == lir::Declaration::Const(defs[i].0, defs[i].1)
}

/// The type declarations of a `type`, in order.
pub open spec fn type_decls_of(d: lir::Declaration, defs: Seq<(String, Type)>) -> bool {
    &&& d is Many
    &&& d->Many_0@.len() == defs.len()
    &&& forall|i: int|
        0 <= i < defs.len() ==> #[trigger] d->Many_0@[i] == lir::Declaration::Type(defs[i].0, defs[i].1)
}

/// The size of a statement: how many statements and declarations it is made of.
pub open spec fn stmt_size(s: Statement) -> nat
    decreases s, 0nat,
{
    1 + match s {
        Statement::AnnotatedWithSource { stmt, loc: _ } => stmt_size(*stmt),
        Statement::If(_, b, e) => stmt_size(*b) + else_size(e),
        Statement::When(_, b, e) => stmt_size(*b) + else_size(e),
        Statement::IfLet(_, _, b, e) => stmt_size(*b) + else_size(e),
        Statement::While(_, b) => stmt_size(*b),
        Statement::For(i, _, st, b) => stmt_size(*i) + stmt_size(*st) + stmt_size(*b),
        Statement::Block(ds) => decls_size(ds@),
        Statement::LetIn(_, b) => stmt_size(*b),
        Statement::LetStaticIn(_, b) => stmt_size(*b),
        _ => 0,
    }
}

/// The size of an optional `else` branch.
pub open spec fn else_size(e: Option<Box<Statement>>) -> nat
    decreases e, 1nat,
{
    match e {
        Some(b) => stmt_size(*b),
        None => 0,
    }
}

/// The size of a declaration.
pub open spec fn decl_size(d: Declaration) -> nat
    decreases d, 0nat,
{
    1 + match d {
        Declaration::Many(ds) => decls_size(ds@),
        Declaration::Statement(s) => stmt_size(s),
        Declaration::Proc(_, _, _, s) => stmt_size(*s),
        Declaration::PolyProc(_, _, _, _, s) => stmt_size(*s),
        _ => 0,
    }
}

/// The size of a list of declarations.
pub open spec fn decls_size(ds: Seq<Declaration>) -> nat
    decreases ds, 1nat,
{
    if ds.len() == 0 {
        0
    } else {
        decls_size(ds.subrange(0, ds.len() - 1)) + decl_size(ds[ds.len() - 1]) + 1
    }
}

/// Always true. It marks each intermediate lowering that the relations
/// below quantify over, and serves only as the trigger of those quantifiers:
/// a proof names a lowering `x` by asserting `lowered(x)`.
pub open spec fn lowered(e: Expr) -> bool {
    true
}

/// The lowering of an optional `else` branch: `None` where there is none.
pub open spec fn else_lowers(e: Option<Box<Statement>>, y: Expr) -> bool
    decreases else_size(e), 3nat,
{
    match e {
        Some(b) => stmt_lowers(*b, None, y),
        None => y == Expr::ConstExpr(ConstExpr::Void),
    }
}

/// `r` is the lowering of statement `s` followed by `rest`.
pub open spec fn stmt_lowers(s: Statement, rest: Option<Expr>, r: Expr) -> bool
    decreases stmt_size(s), 2nat,
{
    match s {
        Statement::AnnotatedWithSource { stmt, loc } => r is Annotated && r->Annotated_1 == loc
            && stmt_lowers(*stmt, rest, *r->Annotated_0),
        Statement::Assign(lhs, Some(op), rhs) => followed_by(
            Expr::AssignOp(op, Box::new(Expr::Refer(Mutability::Mutable, Box::new(lhs))), Box::new(rhs)),
            rest,
            r,
        ),
        Statement::Assign(lhs, None, rhs) => followed_by(
            Expr::DerefMut(Box::new(Expr::Refer(Mutability::Mutable, Box::new(lhs))), Box::new(rhs)),
            rest,
            r,
        ),
        Statement::When(c, b, e) => exists|x: Expr, y: Expr|
            #![trigger lowered(x), lowered(y)]
            lowered(x) && lowered(y) && stmt_lowers(*b, None, x) && else_lowers(e, y) && followed_by(
                Expr::When(c, Box::new(x), Box::new(y)),
                rest,
                r,
            ),
        Statement::If(c, b, e) => exists|x: Expr, y: Expr|
            #![trigger lowered(x), lowered(y)]
            lowered(x) && lowered(y) && stmt_lowers(*b, None, x) && else_lowers(e, y) && followed_by(
                Expr::If(Box::new(c), Box::new(x), Box::new(y)),
                rest,
                r,
            ),
        Statement::IfLet(p, c, b, e) => exists|x: Expr, y: Expr|
            #![trigger lowered(x), lowered(y)]
            lowered(x) && lowered(y) && stmt_lowers(*b, None, x) && else_lowers(e, y) && followed_by(
                Expr::IfLet(p, Box::new(c), Box::new(x), Box::new(y)),
                rest,
                r,
            ),
        Statement::While(c, b) => exists|x: Expr|
            #![trigger lowered(x)]
            lowered(x) && stmt_lowers(*b, None, x) && followed_by(Expr::While(Box::new(c), Box::new(x)), rest, r),
        Statement::For(init, c, step, body) => exists|st: Expr, turn: Expr, x: Expr|
            #![trigger lowered(st), lowered(turn), lowered(x)]
            lowered(st) && lowered(turn) && lowered(x) && stmt_lowers(*step, None, st) && stmt_lowers(*body, Some(st), turn) && stmt_lowers(
                *init,
                Some(Expr::While(Box::new(c), Box::new(turn))),
                x,
            ) && followed_by(x, rest, r),
        Statement::Return(e) => followed_by(Expr::Return(Box::new(e)), rest, r),
        Statement::Block(ds) => match rest {
            Some(Expr::Many(v)) => {
                &&& r is Many
                &&& r->Many_0@.len() == v@.len() + 1
                &&& r->Many_0@.subrange(1, v@.len() + 1 as int) == v@
                &&& r->Many_0@[0] is Many
                &&& all_lowered(ds@, r->Many_0@[0]->Many_0@)
            },
            other => block_lowers(ds@, other, r),
        },
        Statement::Let(defs) => r is Declare && *r->Declare_1 == rest_or_none(rest) && var_decls_of(
            *r->Declare_0,
            defs@,
        ),
        Statement::LetPattern(defs) => r is Declare && *r->Declare_1 == rest_or_none(rest)
            && pattern_decls_of(*r->Declare_0, defs@),
        Statement::LetStatic(defs) => r is Declare && *r->Declare_1 == rest_or_none(rest)
            && static_decls_of(*r->Declare_0, defs@),
        Statement::LetIn(defs, body) => exists|x: Expr|
            #![trigger lowered(x)]
            lowered(x) && stmt_lowers(*body, None, x) && exists|d: lir::Declaration|
                #![trigger var_decls_of(d, defs@)]
                var_decls_of(d, defs@) && followed_by(Expr::Declare(Box::new(d), Box::new(x)), rest, r),
        Statement::LetStaticIn(defs, body) => exists|x: Expr|
            #![trigger lowered(x)]
            lowered(x) && stmt_lowers(*body, None, x) && exists|d: lir::Declaration|
                #![trigger static_decls_of(d, defs@)]
                static_decls_of(d, defs@) && followed_by(Expr::Declare(Box::new(d), Box::new(x)), rest, r),
        Statement::Expr(e) => followed_by(e, rest, r),
    }
}

/// `r` is the lowering of declarations `ds` in order, followed by `rest`:
/// each one scopes over the lowering of those after it.
pub open spec fn block_lowers(ds: Seq<Declaration>, rest: Option<Expr>, r: Expr) -> bool
    decreases decls_size(ds), 1nat,
{
    if ds.len() == 0 {
        r == rest_or_none(rest)
    } else {
        exists|x: Expr|
            #![trigger lowered(x)]
            lowered(x) && decl_lowers(ds[ds.len() - 1], rest, x) && block_lowers(ds.subrange(0, ds.len() - 1), Some(x), r)
    }
}

/// `xs` are the lowerings of declarations `ds` each on its own.
pub open spec fn all_lowered(ds: Seq<Declaration>, xs: Seq<Expr>) -> bool
    decreases decls_size(ds), 1nat,
{
    if ds.len() == 0 {
        xs.len() == 0
    } else {
        xs.len() == ds.len() && all_lowered(ds.subrange(0, ds.len() - 1), xs.subrange(0, xs.len() - 1))
            && decl_lowers(ds[ds.len() - 1], None, xs[xs.len() - 1])
    }
}

/// An expression's source annotations put around another expression.
pub open spec fn rewrap(e: Expr, core: Expr) -> Expr
    decreases e,
{
    match e {
        Expr::Annotated(inner, loc) => Expr::Annotated(Box::new(rewrap(*inner, core)), loc),
        _ => core,
    }
}

/// `r` is the lowering of declaration `d` followed by `rest`: annotations
/// around `rest` go around the whole lowering.
pub open spec fn decl_lowers(d: Declaration, rest: Option<Expr>, r: Expr) -> bool
    decreases decl_size(d), 2nat,
{
    match rest {
        Some(e) => exists|core: Expr|
            #![trigger lowered(core)]
            lowered(core) && decl_core_lowers(d, Some(strip_annotations(e)), core) && r == rewrap(e, core),
        None => decl_core_lowers(d, None, r),
    }
}

/// The variants of an enumeration declaration, all without payloads.
pub open spec fn all_plain(vs: Seq<(String, Option<Type>)>) -> bool {
    forall|i: int| 0 <= i < vs.len() ==> (#[trigger] vs[i]).1 is None
}

/// `r` is the lowering of declaration `d` followed by `rest`, which has no
/// annotation around it.
pub open spec fn decl_core_lowers(d: Declaration, rest: Option<Expr>, r: Expr) -> bool
    decreases decl_size(d), 1nat,
{
    match d {
        Declaration::Many(ds) => block_lowers(ds@, Some(rest_or_none(rest)), r),
        Declaration::Statement(stmt) => match rest {
            Some(Expr::Declare(decls, inner)) => if decl_is_compile_time(*decls) {
                r is Declare && r->Declare_0 == decls && stmt_lowers(stmt, Some(*inner), *r->Declare_1)
            } else {
                stmt_lowers(stmt, rest, r)
            },
            other => stmt_lowers(stmt, other, r),
        },
        _ => {
            &&& r is Declare
            &&& *r->Declare_1 == rest_or_none(rest)
            &&& declares(d, *r->Declare_0)
        },
    }
}

/// `decl` is what a declaration that is neither a statement nor a list declares.
pub open spec fn declares(d: Declaration, decl: lir::Declaration) -> bool
    decreases decl_size(d), 0nat,
{
    match d {
        Declaration::Impl(ty, methods) => decl == lir::Declaration::Impl(ty, methods),
        Declaration::Struct(name, fields) => decl == lir::Declaration::Type(name, Type::Struct(fields)),
        Declaration::Extern(name, args, ret) => {
            &&& decl is Many
            &&& decl->Many_0@.len() == 1
            &&& decl->Many_0@[0] is Const
            &&& decl->Many_0@[0]->Const_0 == name
            &&& decl->Many_0@[0]->Const_1 is FFIProcedure
            &&& ({
                let f = decl->Many_0@[0]->Const_1->FFIProcedure_0;
                &&& f.name == name
                &&& *f.ret == ret
                &&& (*f.args)@ == args@.map_values(|a: (Option<String>, Type)| a.1)
            })
        },
        Declaration::Enum(name, variants) => {
            &&& decl is Type
            &&& decl->Type_0 == name
            &&& if all_plain(variants@) {
                let t = decl->Type_1;
                t is Enum && t->Enum_0@ == variants@.map_values(|v: (String, Option<Type>)| v.0)
            } else {
                let t = decl->Type_1;
                t is EnumUnion && t->EnumUnion_0@ == variants@.map_values(
                    |v: (String, Option<Type>)|
                        (
                            v.0,
                            match v.1 {
                                Some(x) => x,
                                None => Type::Void,
                            },
                        ),
                )
            }
        },
        Declaration::Const(consts) => const_decls_of(decl, consts@),
        Declaration::Type(types) => type_decls_of(decl, types@),
        Declaration::Proc(name, params, ret, stmt) => {
            &&& decl is Proc
            &&& decl->Proc_0 == name
            &&& ({
                let p = decl->Proc_1;
                &&& p.name == Some(name)
                &&& *p.args == params
                &&& *p.ret == (match ret {
                    Some(t) => t,
                    None => Type::Void,
                })
                &&& !p.compiled
                &&& p.label == 0
                &&& stmt_lowers(*stmt, None, *p.body)
            })
        },
        Declaration::PolyProc(name, ty_params, params, ret, stmt) => {
            &&& decl is Const
            &&& decl->Const_0 == name
            &&& decl->Const_1 is PolyProc
            &&& ({
                let p = decl->Const_1->PolyProc_0;
                &&& p.name == name
                &&& *p.ty_params == ty_params
                &&& *p.args == params
                &&& *p.ret == (match ret {
                    Some(t) => t,
                    None => Type::Void,
                })
                &&& stmt_lowers(*stmt, None, *p.body)
            })
        },
        _ => false,
    }
}

fn take_rest(rest: Option<Expr>) -> (r: Expr)
    ensures
        r == rest_or_none(rest),
{
    match rest {
        Some(e) => e,
        None => Expr::none(),
    }
}

fn follow(stmt: Expr, rest: Option<Expr>) -> (r: Expr)
    ensures
        followed_by(stmt, rest, r),
{
    match rest {
        Some(Expr::Many(v)) => {
            let mut v = v;
            let ghost old_v = v@;
            v.insert(0, stmt);
            proof {
                assert(v@ =~= seq![stmt] + old_v);
            }
            Expr::Many(v)
        },
        Some(x) => {
            let v = vec![stmt, x];
            Expr::Many(v)
        },
        None => stmt,
    }
}

fn var_decls(defs: Vec<(String, Mutability, Option<Type>, Expr)>) -> (r: lir::Declaration)
    ensures
        var_decls_of(r, defs@),
{
    let ghost all = defs@;
    let mut out: Vec<lir::Declaration> = Vec::new();
    for d in it: defs
        invariant
            it.seq() == all,
            out@.len() == it.index(),
            forall|i: int|
                0 <= i < out@.len() ==> #[trigger] out@[i] == lir::Declaration::Var(
                    all[i].0,
                    all[i].1,
                    all[i].2,
                    all[i].3,
                ),
    {
        let (n, m, t, e) = d;
        out.push(lir::Declaration::Var(n, m, t, e));
    }
    lir::Declaration::Many(out)
}

fn pattern_decls(defs: Vec<(Pattern, Expr)>) -> (r: lir::Declaration)
    ensures
        pattern_decls_of(r, defs@),
{
    let ghost all = defs@;
    let mut out: Vec<lir::Declaration> = Vec::new();
    for d in it: defs
        invariant
            it.seq() == all,
            out@.len() == it.index(),
            forall|i: int|
                0 <= i < out@.len() ==> #[trigger] out@[i] == lir::Declaration::VarPat(all[i].0, all[i].1),
    {
        let (p, e) = d;
        out.push(lir::Declaration::VarPat(p, e));
    }
    lir::Declaration::Many(out)
}

fn static_decls(defs: Vec<(String, Mutability, Type, ConstExpr)>) -> (r: lir::Declaration)
    ensures
        static_decls_of(r, defs@),
{
    let ghost all = defs@;
    let mut out: Vec<lir::Declaration> = Vec::new();
    for d in it: defs
        invariant
            it.seq() == all,
            out@.len() == it.index(),
            forall|i: int|
                0 <= i < out@.len() ==> #[trigger] out@[i] == lir::Declaration::StaticVar(
                    all[i].0,
                    all[i].1,
                    all[i].2,
                    all[i].3,
                ),
    {
        let (n, m, t, c) = d;
        out.push(lir::Declaration::StaticVar(n, m, t, c));
    }
    lir::Declaration::Many(out)
}

fn const_decls(defs: Vec<(String, ConstExpr)>) -> (r: lir::Declaration)
    ensures
        const_decls_of(r, defs@),
{
    let ghost all = defs@;
    let mut out: Vec<lir::Declaration> = Vec::new();
    for d in it: defs
        invariant
            it.seq() == all,
            out@.len() == it.index(),
            forall|i: int|
                0 <= i < out@.len() ==> #[trigger] out@[i] == lir::Declaration::Const(all[i].0, all[i].1),
    {
        let (n, c) = d;
        out.push(lir::Declaration::Const(n, c));
    }
    lir::Declaration::Many(out)
}

fn type_decls(defs: Vec<(String, Type)>) -> (r: lir::Declaration)
    ensures
        type_decls_of(r, defs@),
{
    let ghost all = defs@;
    let mut out: Vec<lir::Declaration> = Vec::new();
    for d in it: defs
        invariant
            it.seq() == all,
            out@.len() == it.index(),
            forall|i: int|
                0 <= i < out@.len() ==> #[trigger] out@[i] == lir::Declaration::Type(all[i].0, all[i].1),
    {
        let (n, t) = d;
        out.push(lir::Declaration::Type(n, t));
    }
    lir::Declaration::Many(out)
}

impl Statement {
    /// This statement with the place in the source it came from, unless it
    /// already has one.
    pub fn with_loc(self, loc: SourceCodeLocation) -> (r: Statement)
        ensures
            self is AnnotatedWithSource ==> r == self,
            !(self is AnnotatedWithSource) ==> r == (Statement::AnnotatedWithSource {
                stmt: Box::new(self),
                loc,
            }),
    {
        match self {
            Statement::AnnotatedWithSource { .. } => self,
            _ => Statement::AnnotatedWithSource { stmt: Box::new(self), loc },
        }
    }

    /// Lower this statement into an expression, followed by `rest`, the
    /// lowering of what comes after it in its block.
    pub fn to_expr(self, rest: Option<Expr>) -> (r: Expr)
        ensures
            stmt_lowers(self, rest, r),
        decreases self, 2nat,
    {
        let ghost whole = self;
        let ghost rest0 = rest;
        let stmt = match self {
            Statement::AnnotatedWithSource { stmt, loc } => {
                return stmt.to_expr(rest).annotate(loc);
            },
            Statement::Assign(lhs, op, rhs) => match op {
                Some(op) => lhs.refer(Mutability::Mutable).assign(op, rhs),
                None => lhs.refer(Mutability::Mutable).deref_mut(rhs),
            },
            Statement::When(cond, body, else_body) => {
                let ghost (b, e) = (*body, else_body);
                let other = match else_body {
                    Some(e) => e.to_expr(None),
                    None => Expr::none(),
                };
                let x = body.to_expr(None);
                proof {
                    assert(lowered(x) && lowered(other) && stmt_lowers(b, None, x) && else_lowers(e, other));
                }
                Expr::When(cond, Box::new(x), Box::new(other))
            },
            Statement::If(cond, body, else_body) => {
                let ghost (b, e) = (*body, else_body);
                let other = match else_body {
                    Some(e) => e.to_expr(None),
                    None => Expr::none(),
                };
                let x = body.to_expr(None);
                proof {
                    assert(lowered(x) && lowered(other) && stmt_lowers(b, None, x) && else_lowers(e, other));
                }
                Expr::If(Box::new(cond), Box::new(x), Box::new(other))
            },
            Statement::IfLet(pat, e, body, else_body) => {
                let ghost (b, eb) = (*body, else_body);
                let other = match else_body {
                    Some(x) => x.to_expr(None),
                    None => Expr::none(),
                };
                let x = body.to_expr(None);
                proof {
                    assert(lowered(x) && lowered(other) && stmt_lowers(b, None, x) && else_lowers(eb, other));
                }
                Expr::IfLet(pat, Box::new(e), Box::new(x), Box::new(other))
            },
            Statement::While(cond, body) => {
                let ghost b = *body;
                let x = body.to_expr(None);
                proof {
                    assert(lowered(x) && stmt_lowers(b, None, x));
                }
                Expr::While(Box::new(cond), Box::new(x))
            },
            Statement::For(init, cond, step, body) => {
                let ghost (i0, c0, s0, b0) = (*init, cond, *step, *body);
                // The step runs after the body, in each turn of the loop.
                let step = step.to_expr(None);
                let ghost st = step;
                let turn = body.to_expr(Some(step));
                let ghost tn = turn;
                let x = init.to_expr(Some(Expr::While(Box::new(cond), Box::new(turn))));
                proof {
                    assert(lowered(st) && lowered(tn) && lowered(x));
                    assert(stmt_lowers(s0, None, st) && stmt_lowers(b0, Some(st), tn) && stmt_lowers(
                        i0,
                        Some(Expr::While(Box::new(c0), Box::new(tn))),
                        x,
                    ));
                }
                x
            },
            Statement::Return(e) => Expr::Return(Box::new(e)),
            Statement::Block(stmts) => {
                proof {
                    assert(decreases_to!(whole => whole->Block_0));
                    assert(decreases_to!(whole->Block_0 => whole->Block_0@));
                }
                let ghost all = stmts@;
                match rest {
                    Some(Expr::Many(following)) => {
                        // The block's statements, each lowered alone, go first.
                        let mut lowered: Vec<Expr> = Vec::new();
                        for d in it: stmts
                            invariant
                                it.seq() == all,
                                whole == self,
                                whole == Statement::Block(whole->Block_0),
                                all == whole->Block_0@,
                                decreases_to!(whole => whole->Block_0@),
                                lowered@.len() == it.index(),
                                all_lowered(all.subrange(0, it.index() as int), lowered@),
                        {
                            let ghost k = lowered@.len() as int;
                            proof {
                                assert(d == all[k]);
                                assert(decreases_to!(whole->Block_0@ => whole->Block_0@[k]));
                            }
                            let x = d.to_expr(None);
                            let ghost before = lowered@;
                            lowered.push(x);
                            proof {
                                let sub = all.subrange(0, k + 1);
                                assert(sub.subrange(0, k) =~= all.subrange(0, k));
                                assert(lowered@.subrange(0, k) =~= before);
                                assert(sub[k] == all[k]);
                            }
                        }
                        proof {
                            assert(all.subrange(0, all.len() as int) =~= all);
                        }
                        let mut following = following;
                        let ghost v = following@;
                        let inner = Expr::Many(lowered);
                        following.insert(0, inner);
                        proof {
                            assert(following@.subrange(1, v.len() + 1 as int) =~= v);
                        }
                        return Expr::Many(following);
                    },
                    other => {
                        let mut stmts = stmts;
                        let mut result = other;
                        proof {
                            assert(stmts@ =~= all.subrange(0, all.len() as int));
                        }
                        while stmts.len() > 0
                            invariant
                                whole == self,
                                whole == Statement::Block(whole->Block_0),
                                all == whole->Block_0@,
                                decreases_to!(whole => whole->Block_0@),
                                stmts@.len() <= all.len(),
                                stmts@ == all.subrange(0, stmts@.len() as int),
                                forall|r: Expr|
                                    block_lowers(stmts@, result, r) ==> #[trigger] block_lowers(all, rest0, r),
                            decreases stmts@.len(),
                        {
                            let ghost k = stmts@.len() - 1;
                            let ghost before = stmts@;
                            let ghost res0 = result;
                            let d = stmts.pop().unwrap();
                            proof {
                                assert(d == all[k]);
                                assert(decreases_to!(whole->Block_0@ => whole->Block_0@[k]));
                                assert(stmts@ =~= before.subrange(0, before.len() - 1));
                            }
                            let x = d.to_expr(result);
                            proof {
                                assert forall|r: Expr| block_lowers(stmts@, Some(x), r) implies #[trigger] block_lowers(
                                    all,
                                    rest0,
                                    r,
                                ) by {
                                    assert(before[before.len() - 1] == d);
                                    assert(decl_lowers(before[before.len() - 1], res0, x));
                                    assert(lowered(x));
                                    assert(block_lowers(before, res0, r));
                                }
                            }
                            result = Some(x);
                        }
                        let r = take_rest(result);
                        proof {
                            assert(block_lowers(stmts@, result, r));
                            assert(block_lowers(all, rest0, r));
                        }
                        return r;
                    },
                }
            },
            Statement::Let(defs) => {
                return take_rest(rest).with(var_decls(defs));
            },
            Statement::LetPattern(defs) => {
                return take_rest(rest).with(pattern_decls(defs));
            },
            Statement::LetStatic(defs) => {
                return take_rest(rest).with(static_decls(defs));
            },
            Statement::LetIn(defs, body) => {
                let ghost (b, ds) = (*body, defs@);
                let x = body.to_expr(None);
                let d = var_decls(defs);
                proof {
                    assert(lowered(x) && stmt_lowers(b, None, x));
                    assert(var_decls_of(d, ds));
                }
                x.with(d)
            },
            Statement::LetStaticIn(defs, body) => {
                let ghost (b, ds) = (*body, defs@);
                let x = body.to_expr(None);
                let d = static_decls(defs);
                proof {
                    assert(lowered(x) && stmt_lowers(b, None, x));
                    assert(static_decls_of(d, ds));
                }
                x.with(d)
            },
            Statement::Expr(e) => e,
        };
        let r = follow(stmt, rest);
        proof {
            match whole {
                Statement::LetIn(defs, body) => {
                    let d = *stmt->Declare_0;
                    let x = *stmt->Declare_1;
                    assert(var_decls_of(d, defs@) && followed_by(Expr::Declare(Box::new(d), Box::new(x)), rest0, r));
                },
                Statement::LetStaticIn(defs, body) => {
                    let d = *stmt->Declare_0;
                    let x = *stmt->Declare_1;
                    assert(static_decls_of(d, defs@) && followed_by(Expr::Declare(Box::new(d), Box::new(x)), rest0, r));
                },
                _ => {},
            }
        }
        r
    }
}

/// The source annotations around an expression, outermost first.
pub open spec fn locs_of(e: Expr) -> Seq<SourceCodeLocation>
    decreases e,
{
    match e {
        Expr::Annotated(inner, loc) => seq![loc] + locs_of(*inner),
        _ => Seq::empty(),
    }
}

/// An expression inside annotations, the first of them outermost.
pub open spec fn wrap_all(locs: Seq<SourceCodeLocation>, core: Expr) -> Expr
    decreases locs.len(),
{
    if locs.len() == 0 {
        core
    } else {
        Expr::Annotated(Box::new(wrap_all(locs.drop_first(), core)), locs[0])
    }
}

proof fn lemma_rewrap(e: Expr, core: Expr)
    ensures
        rewrap(e, core) == wrap_all(locs_of(e), core),
    decreases e,
{
    if let Expr::Annotated(inner, loc) = e {
        lemma_rewrap(*inner, core);
        assert((seq![loc] + locs_of(*inner)).drop_first() =~= locs_of(*inner));
    }
}

/// Take the source annotations off an expression, outermost first.
fn peel(e: Expr, locs: &mut Vec<SourceCodeLocation>) -> (r: Expr)
    ensures
        r == strip_annotations(e),
        final(locs)@ == old(locs)@ + locs_of(e),
    decreases e,
{
    match e {
        Expr::Annotated(inner, loc) => {
            let ghost (i, l) = (*inner, loc);
            let ghost before = locs@;
            locs.push(loc);
            let r = peel(*inner, locs);
            proof {
                assert(before.push(l) + locs_of(i) =~= before + (seq![l] + locs_of(i)));
            }
            r
        },
        other => {
            proof {
                assert(locs@ + locs_of(other) =~= locs@);
            }
            other
        },
    }
}

/// Whether a surface declaration only declares compile-time names: types,
/// constants, procedures, external procedures and implementations.
pub open spec fn surface_compile_time(d: Declaration) -> bool
    decreases d, 0nat,
{
    match d {
        Declaration::Const(_) | Declaration::Type(_) | Declaration::Proc(_, _, _, _)
        | Declaration::PolyProc(_, _, _, _, _) | Declaration::Extern(_, _, _) | Declaration::Impl(_, _)
        | Declaration::Struct(_, _) | Declaration::Enum(_, _) => true,
        Declaration::Many(ds) => all_surface_compile_time(ds@),
        Declaration::Statement(_) => false,
    }
}

pub open spec fn all_surface_compile_time(ds: Seq<Declaration>) -> bool
    decreases ds, 1nat,
{
    if ds.len() == 0 {
        true
    } else {
        all_surface_compile_time(ds.subrange(0, ds.len() - 1)) && surface_compile_time(ds[ds.len() - 1])
    }
}

proof fn lemma_surface_prefix(ds: Seq<Declaration>, n: int)
    requires
        0 < n <= ds.len(),
        !all_surface_compile_time(ds.subrange(0, n)),
    ensures
        !all_surface_compile_time(ds),
    decreases ds.len() - n,
{
    if n < ds.len() {
        assert(ds.subrange(0, n + 1).subrange(0, n) =~= ds.subrange(0, n));
        lemma_surface_prefix(ds, n + 1);
    } else {
        assert(ds.subrange(0, n) =~= ds);
    }
}

impl Declaration {
    /// Whether this declaration only declares compile-time names, so that
    /// statements before it may use them.
    pub fn is_compile_time(&self) -> (r: bool)
        ensures
            r == surface_compile_time(*self),
        decreases self,
    {
        match self {
            Declaration::Many(decls) => {
                proof {
                    assert(decreases_to!(*self => (*self)->Many_0));
                    assert(decreases_to!((*self)->Many_0 => (*self)->Many_0@));
                }
                let mut i: usize = 0;
                while i < decls.len()
                    invariant
                        *self == Declaration::Many(*decls),
                        0 <= i <= decls@.len(),
                        all_surface_compile_time(decls@.subrange(0, i as int)),
                    decreases decls@.len() - i,
                {
                    proof {
                        assert(decreases_to!((*self)->Many_0@ => (*self)->Many_0@[i as int]));
                        assert(decls@.subrange(0, i + 1).subrange(0, i as int) =~= decls@.subrange(0, i as int));
                        assert(decls@.subrange(0, i + 1)[i as int] == decls@[i as int]);
                    }
                    if !decls[i].is_compile_time() {
                        proof {
                            lemma_surface_prefix(decls@, i + 1);
                        }
                        return false;
                    }
                    i = i + 1;
                }
                proof {
                    assert(decls@.subrange(0, decls@.len() as int) =~= decls@);
                }
                true
            },
            Declaration::Statement(_) => false,
            _ => true,
        }
    }

    /// The procedure a declaration of one defines; it returns `None` if no
    /// return type is written.
    pub fn proc_to_expr(
        name: String,
        args: Vec<(String, Mutability, Type)>,
        ret: Option<Type>,
        body: Statement,
    ) -> (r: Procedure)
        ensures
            r.name == Some(name),
            *r.args == args,
            *r.ret == (match ret {
                Some(t) => t,
                None => Type::Void,
            }),
            !r.compiled,
            r.label == 0,
            stmt_lowers(body, None, *r.body),
        decreases body, 3nat,
    {
        let ret = match ret {
            Some(t) => t,
            None => Type::Void,
        };
        Procedure::new(Some(name), args, ret, body.to_expr(None))
    }

    /// Lower this declaration into an expression that brings its names into
    /// scope of `rest`, the lowering of what comes after it.
    pub fn to_expr(self, rest: Option<Expr>) -> (r: Expr)
        ensures
            decl_lowers(self, rest, r),
        decreases self, 1nat,
    {
        let ghost rest0 = rest;
        let ghost me = self;
        // Annotations around what follows go around the whole result.
        let mut locs: Vec<SourceCodeLocation> = Vec::new();
        let stripped = match rest {
            Some(e) => Some(peel(e, &mut locs)),
            None => None,
        };
        let ghost all = locs@;
        let mut result = self.lower(stripped);
        let ghost core = result;
        proof {
            assert(all.subrange(all.len() as int, all.len() as int) =~= Seq::<SourceCodeLocation>::empty());
        }
        while locs.len() > 0
            invariant
                locs@.len() <= all.len(),
                locs@ == all.subrange(0, locs@.len() as int),
                result == wrap_all(all.subrange(locs@.len() as int, all.len() as int), core),
            decreases locs@.len(),
        {
            let ghost k = locs@.len() - 1;
            let loc = locs.pop().unwrap();
            proof {
                assert(loc == all[k]);
                let t = all.subrange(k, all.len() as int);
                assert(t.drop_first() =~= all.subrange(k + 1, all.len() as int));
                assert(t[0] == loc);
            }
            result = result.annotate(loc);
        }
        proof {
            match rest0 {
                Some(e) => {
                    lemma_rewrap(e, core);
                    assert(all =~= locs_of(e));
                    assert(all.subrange(0, all.len() as int) =~= all);
                    assert(decl_core_lowers(me, Some(strip_annotations(e)), core));
                    assert(lowered(core));
                },
                None => {
                    assert(all.len() == 0);
                },
            }
        }
        result
    }

    fn lower(self, rest: Option<Expr>) -> (r: Expr)
        ensures
            decl_core_lowers(self, rest, r),
        decreases self, 0nat,
    {
        let ghost whole = self;
        let ghost rest0 = rest;
        match self {
            Declaration::Many(decls) => {
                proof {
                    assert(decreases_to!(whole => whole->Many_0));
                    assert(decreases_to!(whole->Many_0 => whole->Many_0@));
                }
                let ghost all = decls@;
                let mut decls = decls;
                let mut result = take_rest(rest);
                let ghost start = result;
                proof {
                    assert(decls@ =~= all.subrange(0, all.len() as int));
                }
                while decls.len() > 0
                    invariant
                        whole == self,
                        whole == Declaration::Many(whole->Many_0),
                        all == whole->Many_0@,
                        decreases_to!(whole => whole->Many_0@),
                        decls@.len() <= all.len(),
                        decls@ == all.subrange(0, decls@.len() as int),
                        forall|r: Expr|
                            block_lowers(decls@, Some(result), r) ==> #[trigger] block_lowers(all, Some(start), r),
                    decreases decls@.len(),
                {
                    let ghost k = decls@.len() - 1;
                    let ghost before = decls@;
                    let ghost res0 = result;
                    let d = decls.pop().unwrap();
                    proof {
                        assert(d == all[k]);
                        assert(decreases_to!(whole->Many_0@ => whole->Many_0@[k]));
                        assert(decls@ =~= before.subrange(0, before.len() - 1));
                    }
                    let x = d.to_expr(Some(result));
                    proof {
                        assert forall|r: Expr| block_lowers(decls@, Some(x), r) implies #[trigger] block_lowers(
                            all,
                            Some(start),
                            r,
                        ) by {
                            assert(before[before.len() - 1] == d);
                            assert(decl_lowers(before[before.len() - 1], Some(res0), x));
                            assert(lowered(x));
                            assert(block_lowers(before, Some(res0), r));
                        }
                    }
                    result = x;
                }
                proof {
                    assert(block_lowers(decls@, Some(result), result));
                    assert(block_lowers(all, Some(start), result));
                }
                result
            },
            Declaration::Extern(name, args, ret) => {
                let ghost arg_list = args@;
                let mut types: Vec<Type> = Vec::new();
                for a in it: args
                    invariant
                        it.seq() == arg_list,
                        types@ == arg_list.subrange(0, it.index() as int).map_values(
                            |a: (Option<String>, Type)| a.1,
                        ),
                {
                    let ghost k = types@.len() as int;
                    let (_, t) = a;
                    types.push(t);
                    proof {
                        assert(types@ =~= arg_list.subrange(0, k + 1).map_values(
                            |a: (Option<String>, Type)| a.1,
                        ));
                    }
                }
                proof {
                    assert(arg_list.subrange(0, arg_list.len() as int) =~= arg_list);
                }
                let ffi = ConstExpr::FFIProcedure(FFIProcedure { name: name.clone(), args: Rc::new(types), ret: Rc::new(ret) });
                let ghost f = ffi;
                let d = const_decls(vec![(name, ffi)]);
                proof {
                    assert(d->Many_0@[0] == lir::Declaration::Const(name, f));
                }
                take_rest(rest).with(d)
            },
            Declaration::Impl(ty, methods) => take_rest(rest).with(lir::Declaration::Impl(ty, methods)),
            Declaration::Struct(name, fields) => take_rest(rest).with(
                lir::Declaration::Type(name, Type::Struct(fields)),
            ),
            Declaration::Enum(name, variants) => {
                let ghost vs = variants@;
                // Without payloads the enumeration is plain; else it is a tagged union.
                let mut simple = true;
                for i in 0..variants.len()
                    invariant
                        vs == variants@,
                        simple <==> forall|j: int| 0 <= j < i ==> (#[trigger] vs[j]).1 is None,
                {
                    if variants[i].1.is_some() {
                        simple = false;
                    }
                }
                let ty = if simple {
                    let mut names: Vec<String> = Vec::new();
                    for v in it: variants
                        invariant
                            it.seq() == vs,
                            names@ == vs.subrange(0, it.index() as int).map_values(
                                |v: (String, Option<Type>)| v.0,
                            ),
                    {
                        let ghost k = names@.len() as int;
                        let (n, _) = v;
                        names.push(n);
                        proof {
                            assert(names@ =~= vs.subrange(0, k + 1).map_values(
                                |v: (String, Option<Type>)| v.0,
                            ));
                        }
                    }
                    proof {
                        assert(vs.subrange(0, vs.len() as int) =~= vs);
                    }
                    Type::Enum(names)
                } else {
                    let mut cases: Vec<(String, Type)> = Vec::new();
                    for v in it: variants
                        invariant
                            it.seq() == vs,
                            cases@ == vs.subrange(0, it.index() as int).map_values(
                                |v: (String, Option<Type>)|
                                    (
                                        v.0,
                                        match v.1 {
                                            Some(x) => x,
                                            None => Type::Void,
                                        },
                                    ),
                            ),
                    {
                        let ghost k = cases@.len() as int;
                        let (n, t) = v;
                        let t = match t {
                            Some(x) => x,
                            None => Type::Void,
                        };
                        cases.push((n, t));
                        proof {
                            assert(cases@ =~= vs.subrange(0, k + 1).map_values(
                                |v: (String, Option<Type>)|
                                    (
                                        v.0,
                                        match v.1 {
                                            Some(x) => x,
                                            None => Type::Void,
                                        },
                                    ),
                            ));
                        }
                    }
                    proof {
                        assert(vs.subrange(0, vs.len() as int) =~= vs);
                    }
                    Type::EnumUnion(cases)
                };
                take_rest(rest).with(lir::Declaration::Type(name, ty))
            },
            Declaration::Const(consts) => take_rest(rest).with(const_decls(consts)),
            Declaration::Proc(name, params, ret, stmt) => {
                let proc = Declaration::proc_to_expr(name.clone(), params, ret, *stmt);
                take_rest(rest).with(lir::Declaration::Proc(name, proc))
            },
            Declaration::PolyProc(name, ty_params, params, ret, stmt) => {
                let ret = match ret {
                    Some(t) => t,
                    None => Type::Void,
                };
                let body = stmt.to_expr(None);
                let poly = PolyProcedure {
                    name: name.clone(),
                    ty_params: Rc::new(ty_params),
                    args: Rc::new(params),
                    ret: Rc::new(ret),
                    body: Rc::new(body),
                };
                take_rest(rest).with(lir::Declaration::Const(name, ConstExpr::PolyProc(poly)))
            },
            Declaration::Type(types) => take_rest(rest).with(type_decls(types)),
            Declaration::Statement(stmt) => match rest {
                Some(Expr::Declare(decls, inner)) => {
                    // Compile-time names declared after a statement are
                    // visible to it too.
                    if decls.is_compile_time() {
                        stmt.to_expr(Some(*inner)).with(*decls)
                    } else {
                        stmt.to_expr(Some(Expr::Declare(decls, inner)))
                    }
                },
                other => stmt.to_expr(other),
            },
        }
    }
}

impl Program {
    /// Lower a whole program into one expression: each declaration scopes
    /// over the lowering of those after it.
    pub fn to_expr(self) -> (r: Expr)
        ensures
            block_lowers(self.0@, None, r),
    {
        let ghost all = self.0@;
        let mut decls = self.0;
        let mut rest: Option<Expr> = None;
        proof {
            assert(decls@ =~= all.subrange(0, all.len() as int));
        }
        while decls.len() > 0
            invariant
                decls@.len() <= all.len(),
                decls@ == all.subrange(0, decls@.len() as int),
                forall|r: Expr| block_lowers(decls@, rest, r) ==> #[trigger] block_lowers(all, None, r),
            decreases decls@.len(),
        {
            let ghost before = decls@;
            let ghost res0 = rest;
            let d = decls.pop().unwrap();
            proof {
                assert(decls@ =~= before.subrange(0, before.len() - 1));
            }
            let x = d.to_expr(rest);
            proof {
                assert forall|r: Expr| block_lowers(decls@, Some(x), r) implies #[trigger] block_lowers(
                    all,
                    None,
                    r,
                ) by {
                    assert(before[before.len() - 1] == d);
                    assert(decl_lowers(before[before.len() - 1], res0, x));
                    assert(before.len() > 0);
                    assert(block_lowers(before.subrange(0, before.len() - 1), Some(x), r));
                    assert(lowered(x));
                    assert(block_lowers(before, res0, r));
                }
            }
            rest = Some(x);
        }
        let r = take_rest(rest);
        proof {
            assert(block_lowers(decls@, rest, r));
            assert(block_lowers(all, None, r));
        }
        r
    }
}

} // verus!
