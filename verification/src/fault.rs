use vstd::prelude::*;

verus! {

/// The failure taxonomy of the core: structurally invalid input, a uniqueness
/// conflict, a missing referenced entity, an authentication failure, stored
/// data of an unexpected shape, and faults of the surrounding infrastructure
/// (RNG, signing, store).
#[derive(Clone, Copy, Debug, PartialEq, Eq, Structural)]
pub enum Fault {
    Validation,
    Conflict,
    NotFound,
    Auth,
    Integrity,
    Infrastructure,
}

} // verus!
