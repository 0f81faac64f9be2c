use vstd::prelude::*;

verus! {

/// Which mesh is drawn, and with which material; both are indices into the
/// asset tables.
#[derive(Clone, Copy, Debug, PartialEq, Eq, Structural)]
pub struct MeshRenderingInfo {
    pub mesh_index: u32,
    pub material_index: u32,
}

} // verus!
