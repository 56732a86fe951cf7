//! A compiler core for the Sage language: typed intermediate representation,
//! its assembly over symbolic locations and the assembler to the core machine,
//! the environment it is compiled under, and the flat virtual machine program.
use vstd::prelude::*;

pub mod arithmetic;
pub mod assembler;
pub mod assembly;
pub mod copy;
pub mod env;
pub mod equality;
pub mod error;
pub mod frontend;
pub mod lir;
pub mod member;
pub mod patterns;
pub mod mono;
pub mod size;
pub mod vm;

verus! {

/// The value of the null pointer: the smallest value of a signed 8-bit cell.
pub const NULL: i64 = -128;

} // verus!
