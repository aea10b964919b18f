use vstd::prelude::*;

pub mod attrs;
pub mod command;
pub mod compile;
pub mod decode;
pub mod error;
pub mod field;
pub mod grammar;
pub mod literal;
pub mod text;

verus! {

/// A command type that can be built from the arguments of the running
/// program.
pub trait ParseApp: Sized {
    fn parse() -> Self;
}

} // verus!
