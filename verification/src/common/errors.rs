use vstd::prelude::*;

verus! {

/// What a mesh-node lookup could not find.
#[derive(Clone, Copy, Debug, PartialEq, Eq, Structural)]
pub enum MeshNodesError {
    ModelNotFound,
    MeshNotFound,
    MaterialNotFound,
}

/// What a character-controller lookup could not find.
#[derive(Clone, Copy, Debug, PartialEq, Eq, Structural)]
pub enum CharacterControllerError {
    ControllerNotFound,
    ControllerHandleNotFound,
    ControllerBodyNotFound,
}

} // verus!
