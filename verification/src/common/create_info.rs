use vstd::prelude::*;

verus! {

/// Names of a mesh and of the material it is drawn with.
pub struct MeshNodeCreateInfo {
    pub mesh_name: String,
    pub material_name: String,
}

} // verus!
