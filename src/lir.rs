//! The typed intermediate representation: types, constant expressions,
//! runtime expressions, patterns, procedures and declarations.
use crate::arithmetic::Arithmetic;
use std::rc::Rc;
use vstd::prelude::*;

verus! {

/// Whether a place may be written through.
#[derive(Clone, Copy, Debug, PartialEq, Eq, Hash, Structural)]
pub enum Mutability {
    Mutable,
    Immutable,
}

/// A position in a source file.
#[derive(Clone, Debug, PartialEq, Eq, Hash)]
pub struct SourceCodeLocation {
    pub line: usize,
    pub column: usize,
    pub filename: Option<String>,
}

/// A type of the intermediate representation.
#[derive(Debug, PartialEq, Eq, Hash)]
pub enum Type {
    Int,
    Float,
    Bool,
    Char,
    /// The opaque machine word.
    Cell,
    Void,
    Never,
    Pointer(Mutability, Box<Type>),
    /// An array of a type, with a length given as a constant expression.
    Array(Box<Type>, Box<ConstExpr>),
    Tuple(Vec<Type>),
    /// A structure with ordered, named fields.
    Struct(Vec<(String, Type)>),
    /// A plain enumeration of variant names.
    Enum(Vec<String>),
    /// A tagged union: a variant tag followed by a payload.
    EnumUnion(Vec<(String, Type)>),
    /// A procedure taking arguments of some types and returning a type.
    Proc(Vec<Type>, Box<Type>),
    /// A type named in the environment.
    Symbol(String),
    /// A nominal newtype.
    Unit(String, Box<Type>),
    /// A type with parameters.
    Poly(Vec<String>, Box<Type>),
    /// A type with parameters applied to arguments.
    Apply(Box<Type>, Vec<Type>),
    /// A type bound to a name inside another type.
    Let(String, Box<Type>, Box<Type>),
}

/// A value known at compile time.
#[derive(Debug, PartialEq, Eq, Hash)]
pub enum ConstExpr {
    Int(i64),
    /// A floating point number, held as the bits of its cell.
    Float(i64),
    Char(char),
    Bool(bool),
    Void,
    Null,
    Symbol(String),
    Array(Vec<ConstExpr>),
    Tuple(Vec<ConstExpr>),
    Struct(Vec<(String, ConstExpr)>),
    /// A variant of an enumeration type.
    Of(Type, String),
    /// A variant of a tagged union type, with its payload.
    EnumUnion(Type, String, Box<ConstExpr>),
    SizeOfType(Type),
    SizeOfExpr(Rc<Expr>),
    Monomorphize(Box<ConstExpr>, Vec<Type>),
    Proc(Procedure),
    PolyProc(PolyProcedure),
    FFIProcedure(FFIProcedure),
    Type(Type),
}

/// A comparison between two values.
#[derive(Clone, Copy, Debug, PartialEq, Eq, Hash, Structural)]
pub enum Comparison {
    Equal,
    NotEqual,
    Less,
    LessEqual,
    Greater,
    GreaterEqual,
}

/// An operator on two values.
#[derive(Clone, Copy, Debug, PartialEq, Eq, Hash, Structural)]
pub enum BinaryOp {
    Arithmetic(Arithmetic),
    Comparison(Comparison),
    And,
    Or,
}

/// An operator on one value.
#[derive(Clone, Copy, Debug, PartialEq, Eq, Hash, Structural)]
pub enum UnaryOp {
    Negate,
    Not,
}

/// A runtime expression.
#[derive(Debug, PartialEq, Eq, Hash)]
pub enum Expr {
    ConstExpr(ConstExpr),
    /// An expression with the place in the source it came from.
    Annotated(Box<Expr>, SourceCodeLocation),
    /// A sequence of expressions; its value is the last one.
    Many(Vec<Expr>),
    If(Box<Expr>, Box<Expr>, Box<Expr>),
    /// A conditional decided at compile time.
    When(ConstExpr, Box<Expr>, Box<Expr>),
    IfLet(Pattern, Box<Expr>, Box<Expr>, Box<Expr>),
    Match(Box<Expr>, Vec<(Pattern, Expr)>),
    While(Box<Expr>, Box<Expr>),
    /// Declarations in scope of an expression.
    Declare(Box<Declaration>, Box<Expr>),
    UnaryOp(UnaryOp, Box<Expr>),
    BinaryOp(BinaryOp, Box<Expr>, Box<Expr>),
    /// A call of a procedure with arguments.
    Apply(Box<Expr>, Vec<Expr>),
    Member(Box<Expr>, ConstExpr),
    Index(Box<Expr>, Box<Expr>),
    /// The address of a place, with the mutability of the reference.
    Refer(Mutability, Box<Expr>),
    Deref(Box<Expr>),
    /// Write a value through a pointer.
    DerefMut(Box<Expr>, Box<Expr>),
    /// Update a value through a pointer with an operator.
    AssignOp(BinaryOp, Box<Expr>, Box<Expr>),
    Return(Box<Expr>),
    Tuple(Vec<Expr>),
    Array(Vec<Expr>),
    Struct(Vec<(String, Expr)>),
    EnumUnion(Type, String, Box<Expr>),
    As(Box<Expr>, Type),
}

/// A pattern that a value is matched against.
#[derive(Debug, PartialEq, Eq, Hash)]
pub enum Pattern {
    Wildcard,
    /// Bind the value to a name.
    Symbol(Mutability, String),
    ConstExpr(ConstExpr),
    Tuple(Vec<Pattern>),
    Struct(Vec<(String, Pattern)>),
    Variant(String, Option<Box<Pattern>>),
    Pointer(Box<Pattern>),
    Alt(Vec<Pattern>),
}

/// A procedure with its arguments, return type and body.
#[derive(Debug, PartialEq, Eq, Hash)]
pub struct Procedure {
    pub name: Option<String>,
    pub args: Rc<Vec<(String, Mutability, Type)>>,
    pub ret: Rc<Type>,
    pub body: Rc<Expr>,
    /// Whether the body has been emitted already.
    pub compiled: bool,
    /// The label the compiled body is reached by.
    pub label: usize,
}

/// A procedure with type parameters, specialized for each use.
#[derive(Debug, PartialEq, Eq, Hash)]
pub struct PolyProcedure {
    pub name: String,
    pub ty_params: Rc<Vec<String>>,
    pub args: Rc<Vec<(String, Mutability, Type)>>,
    pub ret: Rc<Type>,
    pub body: Rc<Expr>,
}

/// A procedure provided by the host, called by name.
#[derive(Debug, PartialEq, Eq, Hash)]
pub struct FFIProcedure {
    pub name: String,
    pub args: Rc<Vec<Type>>,
    pub ret: Rc<Type>,
}

/// A declaration that brings names into scope.
#[derive(Debug, PartialEq, Eq, Hash)]
pub enum Declaration {
    Type(String, Type),
    Const(String, ConstExpr),
    Proc(String, Procedure),
    Var(String, Mutability, Option<Type>, Expr),
    VarPat(Pattern, Expr),
    StaticVar(String, Mutability, Type, ConstExpr),
    Impl(Type, Vec<(String, ConstExpr)>),
    Many(Vec<Declaration>),
}

impl Expr {
    /// The constant `None` as an expression.
    pub fn none() -> (r: Expr)
        ensures
            r == Expr::ConstExpr(ConstExpr::Void),
    {
        Expr::ConstExpr(ConstExpr::Void)
    }

    /// This expression, with the place in the source it came from.
    pub fn annotate(self, loc: SourceCodeLocation) -> (r: Expr)
        ensures
            r == Expr::Annotated(Box::new(self), loc),
    {
        Expr::Annotated(Box::new(self), loc)
    }

    /// This expression in the scope of a declaration.
    pub fn with(self, decl: Declaration) -> (r: Expr)
        ensures
            r == Expr::Declare(Box::new(decl), Box::new(self)),
    {
        Expr::Declare(Box::new(decl), Box::new(self))
    }

    /// A reference to this place.
    pub fn refer(self, mutability: Mutability) -> (r: Expr)
        ensures
            r == Expr::Refer(mutability, Box::new(self)),
    {
        Expr::Refer(mutability, Box::new(self))
    }

    /// Write `rhs` through this pointer.
    pub fn deref_mut(self, rhs: Expr) -> (r: Expr)
        ensures
            r == Expr::DerefMut(Box::new(self), Box::new(rhs)),
    {
        Expr::DerefMut(Box::new(self), Box::new(rhs))
    }

    /// Update the value this pointer points to with an operator and `rhs`.
    pub fn assign(self, op: BinaryOp, rhs: Expr) -> (r: Expr)
        ensures
            r == Expr::AssignOp(op, Box::new(self), Box::new(rhs)),
    {
        Expr::AssignOp(op, Box::new(self), Box::new(rhs))
    }
}

impl Procedure {
    /// A procedure that has not been compiled yet.
    pub fn new(name: Option<String>, args: Vec<(String, Mutability, Type)>, ret: Type, body: Expr) -> (r:
        Procedure)
        ensures
            r.name == name,
            *r.args == args,
            *r.ret == ret,
            *r.body == body,
            !r.compiled,
            r.label == 0,
    {
        Procedure {
            name,
            args: Rc::new(args),
            ret: Rc::new(ret),
            body: Rc::new(body),
            compiled: false,
            label: 0,
        }
    }

    /// This procedure, reached by another label.
    pub fn with_label(self, label: usize) -> (r: Procedure)
        ensures
            r == (Procedure { label, ..self }),
    {
        Procedure { label, ..self }
    }

    /// A copy of this procedure, sharing its arguments, return type and body.
    pub fn copy(&self) -> (r: Procedure)
        ensures
            r == *self,
    {
        let name = match &self.name {
            Some(n) => Some(n.clone()),
            None => None,
        };
        Procedure {
            name,
            args: Rc::clone(&self.args),
            ret: Rc::clone(&self.ret),
            body: Rc::clone(&self.body),
            compiled: self.compiled,
            label: self.label,
        }
    }
}

impl Declaration {
    /// Whether the declaration only brings compile-time names into scope:
    /// types, constants, procedures and implementations, and no variables.
    pub fn is_compile_time(&self) -> (r: bool)
        ensures
            r == decl_is_compile_time(*self),
        decreases self,
    {
        match self {
            Declaration::Type(_, _) | Declaration::Const(_, _) | Declaration::Proc(_, _)
            | Declaration::Impl(_, _) => true,
            Declaration::Many(decls) => {
                proof {
                    assert(decreases_to!(*self => (*self)->Many_0));
                    assert(decreases_to!((*self)->Many_0 => (*self)->Many_0@));
                }
                let mut i: usize = 0;
                while i < decls.len()
                    invariant
                        *self == Declaration::Many(*decls),
                        0 <= i <= decls@.len(),
                        all_compile_time(decls@.subrange(0, i as int)),
                    decreases decls@.len() - i,
                {
                    proof {
                        assert(decreases_to!((*self)->Many_0@ => (*self)->Many_0@[i as int]));
                        assert(decls@.subrange(0, i + 1).subrange(0, i as int) =~= decls@.subrange(0, i as int));
                        assert(decls@.subrange(0, i + 1)[i as int] == decls@[i as int]);
                    }
                    if !decls[i].is_compile_time() {
                        proof {
                            lemma_all_compile_time_prefix(decls@, i + 1);
                        }
                        return false;
                    }
                    i = i + 1;
                }
                proof {
                    assert(decls@.subrange(0, decls@.len() as int) =~= decls@);
                }
                true
            },
            _ => false,
        }
    }
}

/// Whether a declaration only brings compile-time names into scope.
pub open spec fn decl_is_compile_time(d: Declaration) -> bool
    decreases d, 0nat,
{
    match d {
        Declaration::Type(_, _) | Declaration::Const(_, _) | Declaration::Proc(_, _)
        | Declaration::Impl(_, _) => true,
        Declaration::Many(decls) => all_compile_time(decls@),
        _ => false,
    }
}

/// Whether every declaration of a list only brings compile-time names into scope.
pub open spec fn all_compile_time(ds: Seq<Declaration>) -> bool
    decreases ds, 1nat,
{
    if ds.len() == 0 {
        true
    } else {
        all_compile_time(ds.subrange(0, ds.len() - 1)) && decl_is_compile_time(ds[ds.len() - 1])
    }
}

/// A list with a declaration that is not compile-time only, up to `n`, is not
/// compile-time only.
proof fn lemma_all_compile_time_prefix(ds: Seq<Declaration>, n: int)
    requires
        0 < n <= ds.len(),
        !all_compile_time(ds.subrange(0, n)),
    ensures
        !all_compile_time(ds),
    decreases ds.len() - n,
{
    if n < ds.len() {
        assert(ds.subrange(0, n + 1).subrange(0, n) =~= ds.subrange(0, n));
        lemma_all_compile_time_prefix(ds, n + 1);
    } else {
        assert(ds.subrange(0, n) =~= ds);
    }
}

} // verus!
