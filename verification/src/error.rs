use vstd::prelude::*;

verus! {

/// The ways an operation can fail.
///
/// Both errors are returned synchronously and leave the registry's state
/// exactly as it was: validation happens strictly before any mutation.
#[derive(Clone, Copy, Debug, PartialEq, Eq)]
pub enum Error {
    /// A transfer referenced an identifier that no entity carries.
    NotFound(u32),
    /// The allocator cannot issue a new identifier without wrapping.
    Overflow,
}

} // verus!
