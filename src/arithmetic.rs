//! Arithmetic operators: where they apply, the type of their result, and
//! their folding on integer constants.
use crate::copy::{consts_copy, copy_consts};
use crate::assembly::{code_effect, stack_effect, AssemblyProgram, CoreOp, Location, StandardOp};
use crate::env::{size_of, Env};
use crate::equality::{types_equal, EQ_FUEL};
use crate::size::{array_length, size_result};
use crate::error::Error;
use crate::lir::{ConstExpr, Expr, SourceCodeLocation, Type};
use vstd::prelude::*;

verus! {

/// An arithmetic operation.
#[derive(Clone, Copy, Debug, PartialEq, Eq, Hash, Structural)]
pub enum Arithmetic {
    Add,
    Subtract,
    Multiply,
    Divide,
    Remainder,
    Power,
}

/// Whether an arithmetic operation applies to operands of two types.
pub open spec fn arith_applies(
    op: Arithmetic,
    types: Map<Seq<char>, Type>,
    consts: Map<Seq<char>, ConstExpr>,
    lhs: Type,
    rhs: Type,
) -> bool {
    match (lhs, rhs) {
        (Type::Int, Type::Int) => true,
        (Type::Int, Type::Float) | (Type::Float, Type::Int) | (Type::Float, Type::Float) => true,
        (Type::Array(_, _), Type::Int) => op == Arithmetic::Multiply,
        (Type::Int, Type::Cell) | (Type::Float, Type::Cell) | (Type::Cell, Type::Cell) => true,
        (Type::Cell, Type::Int) | (Type::Cell, Type::Float) => true,
        (Type::Unit(n1, a), Type::Unit(n2, b)) => n1@ == n2@ && types_equal(
            types,
            consts,
            Seq::empty(),
            *a,
            *b,
            EQ_FUEL as nat,
        ),
        _ => false,
    }
}

/// The integer a constant stands for: written, or named in the environment.
pub open spec fn const_int(consts: Map<Seq<char>, ConstExpr>, c: ConstExpr) -> Option<int> {
    match c {
        ConstExpr::Int(n) => Some(n as int),
        ConstExpr::Symbol(s) => if consts.contains_key(s@) {
            match consts[s@] {
                ConstExpr::Int(n) => Some(n as int),
                _ => None,
            }
        } else {
            None
        },
        _ => None,
    }
}

/// An expression without the source annotations around it.
pub open spec fn strip_annotations(e: Expr) -> Expr
    decreases e,
{
    match e {
        Expr::Annotated(inner, _) => strip_annotations(*inner),
        _ => e,
    }
}

/// The type of the result of an arithmetic operation on operands of two
/// types, the right one written as `rhs`.
pub open spec fn arith_result(
    op: Arithmetic,
    types: Map<Seq<char>, Type>,
    consts: Map<Seq<char>, ConstExpr>,
    lhs: Type,
    rhs: Type,
    rhs_expr: Expr,
) -> Result<Type, Error> {
    match (lhs, rhs) {
        (Type::Int, Type::Int) => Ok(Type::Int),
        (Type::Int, Type::Float) | (Type::Float, Type::Int) | (Type::Float, Type::Float) => Ok(
            Type::Float,
        ),
        (Type::Int, Type::Cell) | (Type::Float, Type::Cell) | (Type::Cell, Type::Cell) => Ok(
            Type::Cell,
        ),
        (Type::Cell, Type::Int) | (Type::Cell, Type::Float) => Ok(Type::Cell),
        (Type::Array(elem, len), Type::Int) => match strip_annotations(rhs_expr) {
            Expr::ConstExpr(c) => if op != Arithmetic::Multiply {
                Err(Error::InvalidBinaryOp(op))
            } else {
                match (const_int(consts, *len), const_int(consts, c)) {
                    (Some(size), Some(n)) => if n <= 0 {
                        Err(Error::InvalidBinaryOp(op))
                    } else if size * n < i64::MIN || size * n > i64::MAX {
                        Err(Error::SizeOverflow)
                    } else {
                        Ok(Type::Array(elem, Box::new(ConstExpr::Int((size * n) as i64))))
                    },
                    _ => Err(Error::InvalidArrayLength),
                }
            },
            _ => Err(Error::InvalidBinaryOp(op)),
        },
        (Type::Unit(n1, a), Type::Unit(n2, b)) => if n1@ == n2@ && types_equal(
            types,
            consts,
            Seq::empty(),
            *a,
            *b,
            EQ_FUEL as nat,
        ) {
            Ok(Type::Unit(n1, a))
        } else {
            Err(Error::InvalidBinaryOp(op))
        },
        _ => Err(Error::InvalidBinaryOp(op)),
    }
}

/// An arithmetic operation on two integers, where it is defined and fits in
/// a cell: division and remainder truncate toward zero.
pub open spec fn int_arith(op: Arithmetic, a: int, b: int) -> Option<int> {
    let r = match op {
        Arithmetic::Add => Some(a + b),
        Arithmetic::Subtract => Some(a - b),
        Arithmetic::Multiply => Some(a * b),
        Arithmetic::Divide => if b == 0 {
            None
        } else {
            Some(truncated_div(a, b))
        },
        Arithmetic::Remainder => if b == 0 {
            None
        } else {
            Some(a - b * truncated_div(a, b))
        },
        Arithmetic::Power => if b < 0 || b > u32::MAX {
            None
        } else {
            pow_in_cell(a, b as nat)
        },
    };
    match r {
        Some(v) => if i64::MIN <= v <= i64::MAX {
            Some(v)
        } else {
            None
        },
        None => None,
    }
}

/// Division that rounds toward zero, as a machine's does.
pub open spec fn truncated_div(a: int, b: int) -> int {
    if a == 0 {
        0
    } else if a > 0 && b > 0 {
        a / b
    } else if a < 0 && b < 0 {
        (-a) / (-b)
    } else if a < 0 {
        -((-a) / b)
    } else {
        -(a / (-b))
    }
}

/// A typing result, with an error annotated with the place of the operand
/// where it has one.
pub open spec fn at_operand(r: Result<Type, Error>, operand: Expr) -> Result<Type, Error> {
    match (r, operand) {
        (Err(e), Expr::Annotated(_, loc)) => Err(Error::Annotated(Box::new(e), loc)),
        _ => r,
    }
}

fn copy_loc(l: &SourceCodeLocation) -> (r: SourceCodeLocation)
    ensures
        r == *l,
{
    SourceCodeLocation {
        line: l.line,
        column: l.column,
        filename: match &l.filename {
            Some(f) => Some(f.clone()),
            None => None,
        },
    }
}

/// `base` to the power `exp`, multiplied up one factor at a time, where every
/// partial product fits in a cell.
pub open spec fn pow_in_cell(base: int, exp: nat) -> Option<int>
    decreases exp,
{
    if exp == 0 {
        Some(1)
    } else {
        match pow_in_cell(base, (exp - 1) as nat) {
            Some(p) => if i64::MIN <= p * base <= i64::MAX {
                Some(p * base)
            } else {
                None
            },
            None => None,
        }
    }
}

fn checked_pow(base: i64, exp: i64) -> (r: Option<i64>)
    requires
        0 <= exp,
    ensures
        match r {
            Some(v) => pow_in_cell(base as int, exp as nat) == Some(v as int),
            None => pow_in_cell(base as int, exp as nat) is None,
        },
{
    // Powers of 0, 1 and -1 never leave a cell: answer them at once.
    if base == 0 || base == 1 || base == -1 {
        proof {
            lemma_pow_small_base(base as int, exp as nat);
        }
        if base == 1 || exp == 0 {
            return Some(1);
        } else if base == 0 {
            return Some(0);
        } else if exp % 2 == 0 {
            return Some(1);
        } else {
            return Some(-1);
        }
    }
    let mut acc: i64 = 1;
    let mut i: i64 = 0;
    while i < exp
        invariant
            0 <= i <= exp,
            pow_in_cell(base as int, i as nat) == Some(acc as int),
        decreases exp - i,
    {
        match acc.checked_mul(base) {
            Some(v) => {
                acc = v;
            },
            None => {
                proof {
                    lemma_pow_stays_none(base as int, (i + 1) as nat, exp as nat);
                }
                return None;
            },
        }
        i = i + 1;
    }
    Some(acc)
}

/// The powers of 0, 1 and -1.
proof fn lemma_pow_small_base(base: int, exp: nat)
    requires
        base == 0 || base == 1 || base == -1,
    ensures
        pow_in_cell(base, exp) == Some(
            if base == 1 || exp == 0 {
                1int
            } else if base == 0 {
                0int
            } else if exp % 2 == 0 {
                1int
            } else {
                -1int
            },
        ),
    decreases exp,
{
    if exp > 0 {
        lemma_pow_small_base(base, (exp - 1) as nat);
    }
}

proof fn lemma_pow_stays_none(base: int, i: nat, exp: nat)
    requires
        i <= exp,
        pow_in_cell(base, i) is None,
    ensures
        pow_in_cell(base, exp) is None,
    decreases exp - i,
{
    if i < exp {
        lemma_pow_stays_none(base, i + 1, exp);
    }
}

/// `out` is `n` copies of `arr` one after another.
pub open spec fn repeated_copies(arr: Seq<ConstExpr>, out: Seq<ConstExpr>, n: nat) -> bool
    decreases n,
{
    if n == 0 {
        out.len() == 0
    } else {
        &&& out.len() >= arr.len()
        &&& repeated_copies(arr, out.subrange(0, out.len() - arr.len()), (n - 1) as nat)
        &&& consts_copy(arr, out.subrange(out.len() - arr.len(), out.len() as int))
    }
}

proof fn lemma_repeat_empty(arr: Seq<ConstExpr>, out: Seq<ConstExpr>, n: nat)
    requires
        arr.len() == 0,
        out.len() == 0,
    ensures
        repeated_copies(arr, out, n),
    decreases n,
{
    if n > 0 {
        assert(out.subrange(0, 0) =~= out);
        lemma_repeat_empty(arr, out, (n - 1) as nat);
    }
}

fn const_int_exec(env: &Env, c: &ConstExpr) -> (r: Option<i64>)
    ensures
        match r {
            Some(n) => const_int(env.const_table(), *c) == Some(n as int),
            None => const_int(env.const_table(), *c) is None,
        },
{
    match c {
        ConstExpr::Int(n) => Some(*n),
        ConstExpr::Symbol(s) => match env.get_const(s.as_str()) {
            Some(ConstExpr::Int(n)) => Some(*n),
            _ => None,
        },
        _ => None,
    }
}

fn strip<'a>(e: &'a Expr) -> (r: &'a Expr)
    ensures
        *r == strip_annotations(*e),
    decreases e,
{
    match e {
        Expr::Annotated(inner, _) => strip(inner),
        _ => e,
    }
}

impl Arithmetic {
    /// Can this operation be applied to operands of the given types?
    pub fn can_apply(&self, lhs: &Type, rhs: &Type, env: &Env) -> (r: bool)
        ensures
            r == arith_applies(*self, env.type_table(), env.const_table(), *lhs, *rhs),
    {
        match (lhs, rhs) {
            (Type::Int, Type::Int) => true,
            (Type::Int, Type::Float) | (Type::Float, Type::Int) | (Type::Float, Type::Float) => true,
            (Type::Array(_, _), Type::Int) => *self == Arithmetic::Multiply,
            (Type::Int, Type::Cell) | (Type::Float, Type::Cell) | (Type::Cell, Type::Cell) => true,
            (Type::Cell, Type::Int) | (Type::Cell, Type::Float) => true,
            (Type::Unit(n1, a), Type::Unit(n2, b)) => *n1 == *n2 && a.equals(b, env),
            _ => false,
        }
    }

    /// The type of the result of this operation on operands of the given
    /// types; `rhs_expr` is the right operand, which must be a positive
    /// constant where an array is repeated.
    /// An error is annotated with the place of the right operand, where it
    /// has one.
    pub fn return_type(&self, lhs: Type, rhs: Type, rhs_expr: &Expr, env: &Env) -> (r: Result<
        Type,
        Error,
    >)
        ensures
            r == at_operand(arith_result(*self, env.type_table(), env.const_table(), lhs, rhs, *rhs_expr), *rhs_expr),
    {
        let r = self.result_type(lhs, rhs, rhs_expr, env);
        match (r, rhs_expr) {
            (Err(e), Expr::Annotated(_, loc)) => Err(Error::Annotated(Box::new(e), copy_loc(loc))),
            (r, _) => r,
        }
    }

    fn result_type(&self, lhs: Type, rhs: Type, rhs_expr: &Expr, env: &Env) -> (r: Result<Type, Error>)
        ensures
            r == arith_result(*self, env.type_table(), env.const_table(), lhs, rhs, *rhs_expr),
    {
        match (lhs, rhs) {
            (Type::Int, Type::Int) => Ok(Type::Int),
            (Type::Int, Type::Float) | (Type::Float, Type::Int) | (Type::Float, Type::Float) => Ok(
                Type::Float,
            ),
            (Type::Int, Type::Cell) | (Type::Float, Type::Cell) | (Type::Cell, Type::Cell) => Ok(
                Type::Cell,
            ),
            (Type::Cell, Type::Int) | (Type::Cell, Type::Float) => Ok(Type::Cell),
            (Type::Array(elem, len), Type::Int) => match strip(rhs_expr) {
                Expr::ConstExpr(c) => {
                    if *self != Arithmetic::Multiply {
                        return Err(Error::InvalidBinaryOp(*self));
                    }
                    match (const_int_exec(env, &len), const_int_exec(env, c)) {
                        (Some(size), Some(n)) => {
                            if n <= 0 {
                                Err(Error::InvalidBinaryOp(*self))
                            } else {
                                match size.checked_mul(n) {
                                    Some(total) => Ok(
                                        Type::Array(elem, Box::new(ConstExpr::Int(total))),
                                    ),
                                    None => Err(Error::SizeOverflow),
                                }
                            }
                        },
                        _ => Err(Error::InvalidArrayLength),
                    }
                },
                _ => Err(Error::InvalidBinaryOp(*self)),
            },
            (Type::Unit(n1, a), Type::Unit(n2, b)) => {
                if n1 == n2 && a.equals(&b, env) {
                    Ok(Type::Unit(n1, a))
                } else {
                    Err(Error::InvalidBinaryOp(*self))
                }
            },
            _ => Err(Error::InvalidBinaryOp(*self)),
        }
    }

    /// Fold this operation on two constants. Integers (written or named)
    /// fold where the result is defined and fits in a cell. An array times a
    /// positive integer `n` is the array repeated `n` times; a count of zero
    /// or less is an error. Constants of other kinds do not fold.
    pub fn eval(&self, lhs: &ConstExpr, rhs: &ConstExpr, env: &Env) -> (r: Result<ConstExpr, Error>)
        ensures
            match (const_int(env.const_table(), *lhs), const_int(env.const_table(), *rhs)) {
                (Some(a), Some(b)) => match int_arith(*self, a, b) {
                    Some(v) => r == Ok::<ConstExpr, Error>(ConstExpr::Int(v as i64)),
                    None => r == Err::<ConstExpr, Error>(Error::InvalidConstant(*self)),
                },
                (_, Some(n)) => match *lhs {
                    ConstExpr::Array(arr) => if *self != Arithmetic::Multiply || n <= 0 {
                        r == Err::<ConstExpr, Error>(Error::InvalidBinaryOp(*self))
                    } else if arr@.len() * n > usize::MAX {
                        r == Err::<ConstExpr, Error>(Error::SizeOverflow)
                    } else {
                        r is Ok && r->Ok_0 is Array && repeated_copies(arr@, r->Ok_0->Array_0@, n as nat)
                    },
                    _ => r == Err::<ConstExpr, Error>(Error::InvalidBinaryOp(*self)),
                },
                _ => r == Err::<ConstExpr, Error>(Error::InvalidBinaryOp(*self)),
            },
    {
        let a = const_int_exec(env, lhs);
        let b = const_int_exec(env, rhs);
        match (a, b) {
            (Some(a), Some(b)) => match self.fold_ints(a, b) {
                Some(v) => Ok(ConstExpr::Int(v)),
                None => Err(Error::InvalidConstant(*self)),
            },
            (_, Some(n)) => match lhs {
                ConstExpr::Array(arr) => {
                    if *self != Arithmetic::Multiply || n <= 0 {
                        return Err(Error::InvalidBinaryOp(*self));
                    }
                    let fits = match (arr.len() as u128).checked_mul(n as u128) {
                        Some(total) => total <= usize::MAX as u128,
                        None => false,
                    };
                    if !fits {
                        return Err(Error::SizeOverflow);
                    }
                    let ghost owner = *lhs;
                    proof {
                        assert forall|i: int| 0 <= i < arr@.len() implies decreases_to!(owner => arr@[i]) by {
                            assert(decreases_to!(owner => owner->Array_0));
                            assert(decreases_to!(owner->Array_0 => owner->Array_0@));
                            assert(decreases_to!(owner->Array_0@ => owner->Array_0@[i]));
                        }
                    }
                    let mut result: Vec<ConstExpr> = Vec::new();
                    if arr.len() == 0 {
                        proof {
                            lemma_repeat_empty(arr@, result@, n as nat);
                        }
                        return Ok(ConstExpr::Array(result));
                    }
                    let mut k: i64 = 0;
                    while k < n
                        invariant
                            0 <= k <= n,
                            forall|i: int| 0 <= i < arr@.len() ==> decreases_to!(owner => arr@[i]),
                            repeated_copies(arr@, result@, k as nat),
                        decreases n - k,
                    {
                        let mut block = copy_consts(arr, Ghost(owner));
                        let ghost (before, b) = (result@, block@);
                        result.append(&mut block);
                        proof {
                            let out = result@;
                            assert(out.subrange(0, out.len() - arr@.len()) =~= before);
                            assert(out.subrange(out.len() - arr@.len(), out.len() as int) =~= b);
                        }
                        k = k + 1;
                    }
                    Ok(ConstExpr::Array(result))
                },
                _ => Err(Error::InvalidBinaryOp(*self)),
            },
            _ => Err(Error::InvalidBinaryOp(*self)),
        }
    }

    /// This operation on two integers, where it is defined and fits in a cell.
    pub fn fold_ints(&self, a: i64, b: i64) -> (r: Option<i64>)
        ensures
            match r {
                Some(v) => int_arith(*self, a as int, b as int) == Some(v as int),
                None => int_arith(*self, a as int, b as int) is None,
            },
    {
        match self {
            Arithmetic::Add => {
                let r = a.checked_add(b);
                assert(int_arith(*self, a as int, b as int) == if i64::MIN <= a + b <= i64::MAX {
                    Some(a + b)
                } else {
                    None::<int>
                });
                r
            },
            Arithmetic::Subtract => a.checked_sub(b),
            Arithmetic::Multiply => a.checked_mul(b),
            Arithmetic::Divide => a.checked_div(b),
            Arithmetic::Remainder => match a.checked_div(b) {
                Some(q) => {
                    // |b * q| <= |a|, so the remainder fits.
                    proof {
                        assert(q == truncated_div(a as int, b as int));
                        lemma_truncated_product(a as int, b as int);
                    }
                    Some(a - b * q)
                },
                None => {
                    if b == 0 {
                        None
                    } else {
                        // Only MIN / -1 overflows, and its remainder is 0.
                        proof {
                            assert(truncated_div(a as int, b as int) < i64::MIN || truncated_div(
                                a as int,
                                b as int,
                            ) > i64::MAX);
                            lemma_truncated_product(a as int, b as int);
                            lemma_only_min_overflows(a as int, b as int);
                        }
                        Some(0)
                    }
                },
            },
            Arithmetic::Power => {
                if b < 0 || b > u32::MAX as i64 {
                    None
                } else {
                    checked_pow(a, b)
                }
            },
        }
    }
}

proof fn lemma_only_min_overflows(a: int, b: int)
    requires
        i64::MIN <= a <= i64::MAX,
        i64::MIN <= b <= i64::MAX,
        b != 0,
        truncated_div(a, b) < i64::MIN || truncated_div(a, b) > i64::MAX,
    ensures
        a - b * truncated_div(a, b) == 0,
{
    if a > 0 && b > 0 {
        assert(0 <= a / b <= a) by (nonlinear_arith)
            requires
                a > 0,
                b > 0,
        {
        }
    } else if a < 0 && b < 0 {
        assert(0 <= (-a) / (-b) <= -a) by (nonlinear_arith)
            requires
                a < 0,
                b < 0,
        {
        }
        if b != -1 {
            assert(0 <= (-a) / (-b) <= (-a) / 2) by (nonlinear_arith)
                requires
                    a < 0,
                    b < -1,
            {
            }
        } else {
            assert((-a) / 1 == -a);
            let q = truncated_div(a, b);
            assert(q == -a);
            assert(b * q == a) by (nonlinear_arith)
                requires
                    b == -1,
                    q == -a,
            {
            }
        }
    } else if a < 0 {
        assert(0 <= (-a) / b <= -a) by (nonlinear_arith)
            requires
                a < 0,
                b > 0,
        {
        }
    } else if a > 0 {
        assert(0 <= a / (-b) <= a) by (nonlinear_arith)
            requires
                a > 0,
                b < 0,
        {
        }
    }
}

proof fn lemma_truncated_product(a: int, b: int)
    requires
        b != 0,
    ensures
        0 <= b * truncated_div(a, b) <= a || a <= b * truncated_div(a, b) <= 0,
{
    let q = truncated_div(a, b);
    if a == 0 {
    } else if a > 0 && b > 0 {
        assert(0 <= b * (a / b) <= a) by (nonlinear_arith)
            requires
                a > 0,
                b > 0,
        {
            assert(a == b * (a / b) + a % b);
        }
    } else if a < 0 && b < 0 {
        assert(a <= b * ((-a) / (-b)) <= 0) by (nonlinear_arith)
            requires
                a < 0,
                b < 0,
        {
            assert(-a == (-b) * ((-a) / (-b)) + (-a) % (-b));
        }
    } else if a < 0 {
        assert(a <= b * -((-a) / b) <= 0) by (nonlinear_arith)
            requires
                a < 0,
                b > 0,
        {
            assert(-a == b * ((-a) / b) + (-a) % b);
        }
    } else {
        assert(0 <= b * -(a / (-b)) <= a) by (nonlinear_arith)
            requires
                a > 0,
                b < 0,
        {
            assert(a == (-b) * (a / (-b)) + a % (-b));
        }
    }
}

/// The top cell of the stack: the right operand.
pub open spec fn top_cell() -> Location {
    Location::Indirect(Box::new(Location::Address(0)))
}

/// The cell below the top of the stack: the left operand, and the result.
pub open spec fn below_top() -> Location {
    Location::Offset(Box::new(top_cell()), -1i64)
}

/// The cell above the top of the stack, used as scratch.
pub open spec fn above_top() -> Location {
    Location::Offset(Box::new(top_cell()), 1i64)
}

/// The core code of an operation on the two integers on top of the stack,
/// leaving the result in the lower one.
pub open spec fn core_code(op: Arithmetic) -> Seq<StandardOp> {
    match op {
        Arithmetic::Add => seq![StandardOp::CoreOp(CoreOp::Add { src: top_cell(), dst: below_top() })],
        Arithmetic::Subtract => seq![StandardOp::CoreOp(CoreOp::Sub { src: top_cell(), dst: below_top() })],
        Arithmetic::Multiply => seq![StandardOp::CoreOp(CoreOp::Mul { src: top_cell(), dst: below_top() })],
        Arithmetic::Divide => seq![StandardOp::CoreOp(CoreOp::Div { src: top_cell(), dst: below_top() })],
        Arithmetic::Remainder => seq![StandardOp::CoreOp(CoreOp::Rem { src: top_cell(), dst: below_top() })],
        // Without a power instruction: multiply by the base, counting the
        // exponent down to zero.
        Arithmetic::Power => seq![
            StandardOp::CoreOp(CoreOp::Move { src: below_top(), dst: above_top() }),
            StandardOp::CoreOp(CoreOp::SetValue(below_top(), 1)),
            StandardOp::CoreOp(CoreOp::While(top_cell())),
            StandardOp::CoreOp(CoreOp::Mul { src: above_top(), dst: below_top() }),
            StandardOp::CoreOp(CoreOp::Dec(top_cell())),
            StandardOp::CoreOp(CoreOp::End),
        ],
    }
}

/// The standard instruction of an operation on the two floats on top of the stack.
pub open spec fn float_op(op: Arithmetic) -> StandardOp {
    match op {
        Arithmetic::Add => StandardOp::Add { src: top_cell(), dst: below_top() },
        Arithmetic::Subtract => StandardOp::Sub { src: top_cell(), dst: below_top() },
        Arithmetic::Multiply => StandardOp::Mul { src: top_cell(), dst: below_top() },
        Arithmetic::Divide => StandardOp::Div { src: top_cell(), dst: below_top() },
        Arithmetic::Remainder => StandardOp::Rem { src: top_cell(), dst: below_top() },
        Arithmetic::Power => StandardOp::Pow { src: top_cell(), dst: below_top() },
    }
}

/// The code that repeats the array below an integer `n` on the stack so that
/// it appears `n` times in a row.
pub open spec fn repeat_code(arr_size: int) -> Seq<StandardOp> {
    let a = Location::Address(3);
    let b = Location::Address(4);
    seq![
        StandardOp::CoreOp(CoreOp::Pop(Some(b), 1)),
        StandardOp::CoreOp(CoreOp::GetAddress {
            addr: Location::Offset(Box::new(top_cell()), (1 - arr_size) as i64),
            dst: a,
        }),
        StandardOp::CoreOp(CoreOp::Dec(b)),
        StandardOp::CoreOp(CoreOp::While(b)),
        StandardOp::CoreOp(CoreOp::Push(Location::Indirect(Box::new(a)), arr_size as usize)),
        StandardOp::CoreOp(CoreOp::Dec(b)),
        StandardOp::CoreOp(CoreOp::End),
    ]
}

/// The code of an arithmetic operation on the values on top of the stack,
/// of the given types: the right operand is popped and the left replaced by
/// the result. Floats need the standard instructions.
pub open spec fn arith_code(
    op: Arithmetic,
    env: Env,
    lhs: Type,
    rhs: Type,
    standard: bool,
    fuel: nat,
) -> Result<Seq<StandardOp>, Error>
    decreases fuel,
{
    let pop = StandardOp::CoreOp(CoreOp::Pop(None, 1));
    if fuel == 0 {
        Err(Error::RecursionLimit)
    } else {
        match (lhs, rhs) {
            (Type::Array(_, _), Type::Int) if op == Arithmetic::Multiply => match size_of(env, lhs) {
                Ok(n) => if n > i64::MAX {
                    Err(Error::SizeOverflow)
                } else {
                    Ok(repeat_code(n as int))
                },
                Err(e) => Err(e),
            },
            (Type::Cell, Type::Float) | (Type::Float, Type::Cell) | (Type::Float, Type::Float) => if standard {
                Ok(seq![float_op(op), pop])
            } else {
                Err(Error::UnsupportedInstruction(float_op(op)))
            },
            (Type::Int, Type::Float) => if standard {
                Ok(seq![StandardOp::ToFloat(below_top()), float_op(op), pop])
            } else {
                Err(Error::UnsupportedInstruction(StandardOp::ToFloat(below_top())))
            },
            (Type::Float, Type::Int) => if standard {
                Ok(seq![StandardOp::ToFloat(top_cell()), float_op(op), pop])
            } else {
                Err(Error::UnsupportedInstruction(StandardOp::ToFloat(top_cell())))
            },
            (Type::Int, Type::Int) | (Type::Cell, Type::Cell) | (Type::Cell, Type::Int) | (
                Type::Int,
                Type::Cell,
            ) => Ok(core_code(op).push(pop)),
            (Type::Unit(_, a), Type::Unit(_, b)) => arith_code(op, env, *a, *b, standard, (fuel - 1) as nat),
            _ => Err(Error::InvalidBinaryOpTypes(op)),
        }
    }
}

/// A type that is not an array, inside any number of units.
pub open spec fn not_array(t: Type) -> bool
    decreases t,
{
    match t {
        Type::Array(_, _) => false,
        Type::Unit(_, inner) => not_array(*inner),
        _ => true,
    }
}

/// Compiling an operation on two one-cell operands on top of the stack
/// leaves the stack one cell lower: the operands give way to the result.
pub proof fn lemma_arith_code_balances_stack(
    op: Arithmetic,
    env: Env,
    lhs: Type,
    rhs: Type,
    standard: bool,
    fuel: nat,
)
    requires
        arith_code(op, env, lhs, rhs, standard, fuel) is Ok,
        not_array(lhs),
    ensures
        code_effect(arith_code(op, env, lhs, rhs, standard, fuel)->Ok_0) == -1,
    decreases fuel,
{
    reveal_with_fuel(code_effect, 4);
    let code = arith_code(op, env, lhs, rhs, standard, fuel)->Ok_0;
    match (lhs, rhs) {
        (Type::Unit(_, a), Type::Unit(_, b)) => {
            lemma_arith_code_balances_stack(op, env, *a, *b, standard, (fuel - 1) as nat);
        },
        _ => {
            lemma_core_code_effect(op);
            let pop = StandardOp::CoreOp(CoreOp::Pop(None, 1));
            assert(code.len() > 0 && code.last() == pop);
            assert(code_effect(code) == code_effect(code.drop_last()) - 1);
            if code.len() == 2 {
                assert(code.drop_last().drop_last() =~= Seq::<StandardOp>::empty());
            } else if code.len() == 3 {
                assert(code.drop_last().drop_last().drop_last() =~= Seq::<StandardOp>::empty());
            } else {
                assert(code.drop_last() =~= core_code(op));
            }
        },
    }
}

proof fn lemma_core_code_effect(op: Arithmetic)
    ensures
        code_effect(core_code(op)) == 0,
{
    reveal_with_fuel(code_effect, 8);
    let c = core_code(op);
    if op == Arithmetic::Power {
        assert(c.drop_last().drop_last().drop_last().drop_last().drop_last().drop_last() =~= Seq::<
            StandardOp,
        >::empty());
    } else {
        assert(c.drop_last() =~= Seq::<StandardOp>::empty());
    }
}

/// How deeply unit types may nest in an arithmetic operation.
pub const UNIT_FUEL: u32 = 64;

fn top() -> (r: Location)
    ensures
        r == top_cell(),
{
    Location::sp().deref()
}

fn below() -> (r: Location)
    ensures
        r == below_top(),
{
    Location::sp().deref().offset(-1)
}

fn above() -> (r: Location)
    ensures
        r == above_top(),
{
    Location::sp().deref().offset(1)
}

impl Arithmetic {
    fn float_instruction(&self) -> (r: StandardOp)
        ensures
            r == float_op(*self),
    {
        match self {
            Arithmetic::Add => StandardOp::Add { src: top(), dst: below() },
            Arithmetic::Subtract => StandardOp::Sub { src: top(), dst: below() },
            Arithmetic::Multiply => StandardOp::Mul { src: top(), dst: below() },
            Arithmetic::Divide => StandardOp::Div { src: top(), dst: below() },
            Arithmetic::Remainder => StandardOp::Rem { src: top(), dst: below() },
            Arithmetic::Power => StandardOp::Pow { src: top(), dst: below() },
        }
    }

    fn emit_core(&self, output: &mut AssemblyProgram)
        ensures
            final(output).ops@ == old(output).ops@ + core_code(*self),
            final(output).standard == old(output).standard,
    {
        let ghost start = output.ops@;
        match self {
            Arithmetic::Add => output.op(CoreOp::Add { src: top(), dst: below() }),
            Arithmetic::Subtract => output.op(CoreOp::Sub { src: top(), dst: below() }),
            Arithmetic::Multiply => output.op(CoreOp::Mul { src: top(), dst: below() }),
            Arithmetic::Divide => output.op(CoreOp::Div { src: top(), dst: below() }),
            Arithmetic::Remainder => output.op(CoreOp::Rem { src: top(), dst: below() }),
            Arithmetic::Power => {
                output.op(CoreOp::Move { src: below(), dst: above() });
                output.op(CoreOp::SetValue(below(), 1));
                output.op(CoreOp::While(top()));
                output.op(CoreOp::Mul { src: above(), dst: below() });
                output.op(CoreOp::Dec(top()));
                output.op(CoreOp::End);
            },
        }
        assert(output.ops@ =~= start + core_code(*self));
    }

    /// Emit the code of this operation on the two values on top of the
    /// stack, of the given types: the right operand is popped and the left
    /// one replaced by the result. On an error nothing is emitted.
    pub fn compile_types(&self, lhs: &Type, rhs: &Type, env: &Env, output: &mut AssemblyProgram) -> (r:
        Result<(), Error>)
        ensures
            final(output).standard == old(output).standard,
            match arith_code(*self, *env, *lhs, *rhs, old(output).standard, UNIT_FUEL as nat) {
                Ok(code) => r is Ok && final(output).ops@ == old(output).ops@ + code,
                Err(e) => r == Err::<(), Error>(e) && final(output).ops@ == old(output).ops@,
            },
    {
        self.compile_in(lhs, rhs, env, output, UNIT_FUEL)
    }

    fn compile_in(&self, lhs: &Type, rhs: &Type, env: &Env, output: &mut AssemblyProgram, fuel: u32) -> (r:
        Result<(), Error>)
        ensures
            final(output).standard == old(output).standard,
            match arith_code(*self, *env, *lhs, *rhs, old(output).standard, fuel as nat) {
                Ok(code) => r is Ok && final(output).ops@ == old(output).ops@ + code,
                Err(e) => r == Err::<(), Error>(e) && final(output).ops@ == old(output).ops@,
            },
        decreases fuel,
    {
        if fuel == 0 {
            return Err(Error::RecursionLimit);
        }
        let ghost start = output.ops@;
        match (lhs, rhs) {
            (Type::Array(_, _), Type::Int) => {
                if *self == Arithmetic::Multiply {
                    let arr_size = match lhs.get_size(env) {
                        Ok(n) => n,
                        Err(e) => {
                            return Err(e);
                        },
                    };
                    if arr_size as u64 > i64::MAX as u64 || arr_size as u128 > i64::MAX as u128 {
                        return Err(Error::SizeOverflow);
                    }
                    let a = Location::a();
                    let b = Location::b();
                    output.op(CoreOp::Pop(Some(Location::b()), 1));
                    output.op(
                        CoreOp::GetAddress {
                            addr: Location::sp().deref().offset(1 - arr_size as i64),
                            dst: a,
                        },
                    );
                    output.op(CoreOp::Dec(Location::b()));
                    output.op(CoreOp::While(Location::b()));
                    output.op(CoreOp::Push(Location::a().deref(), arr_size));
                    output.op(CoreOp::Dec(b));
                    output.op(CoreOp::End);
                    assert(output.ops@ =~= start + repeat_code(arr_size as int));
                    return Ok(());
                }
                Err(Error::InvalidBinaryOpTypes(*self))
            },
            (Type::Cell, Type::Float) | (Type::Float, Type::Cell) | (Type::Float, Type::Float) => {
                match output.std_op(self.float_instruction()) {
                    Ok(()) => {},
                    Err(e) => {
                        return Err(e);
                    },
                }
                output.op(CoreOp::Pop(None, 1));
                assert(output.ops@ =~= start + seq![float_op(*self), StandardOp::CoreOp(CoreOp::Pop(None, 1))]);
                Ok(())
            },
            (Type::Int, Type::Float) | (Type::Float, Type::Int) => {
                let convert = match lhs {
                    Type::Int => StandardOp::ToFloat(below()),
                    _ => StandardOp::ToFloat(top()),
                };
                match output.std_op(convert) {
                    Ok(()) => {},
                    Err(e) => {
                        return Err(e);
                    },
                }
                let _ = output.std_op(self.float_instruction());
                output.op(CoreOp::Pop(None, 1));
                proof {
                    if *lhs is Int {
                        assert(output.ops@ =~= start + seq![
                            StandardOp::ToFloat(below_top()),
                            float_op(*self),
                            StandardOp::CoreOp(CoreOp::Pop(None, 1)),
                        ]);
                    } else {
                        assert(output.ops@ =~= start + seq![
                            StandardOp::ToFloat(top_cell()),
                            float_op(*self),
                            StandardOp::CoreOp(CoreOp::Pop(None, 1)),
                        ]);
                    }
                }
                Ok(())
            },
            (Type::Int, Type::Int) | (Type::Cell, Type::Cell) | (Type::Cell, Type::Int) | (
                Type::Int,
                Type::Cell,
            ) => {
                self.emit_core(output);
                output.op(CoreOp::Pop(None, 1));
                assert(output.ops@ =~= start + core_code(*self).push(StandardOp::CoreOp(CoreOp::Pop(None, 1))));
                Ok(())
            },
            (Type::Unit(_, a), Type::Unit(_, b)) => self.compile_in(a, b, env, output, fuel - 1),
            _ => Err(Error::InvalidBinaryOpTypes(*self)),
        }
    }
}

} // verus!
