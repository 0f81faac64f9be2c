use crate::animation::node::Nodes;
use vstd::prelude::*;

verus! {

/// The largest number of joints that a skin keeps. The joint matrices of a
/// skin go into a buffer of this many matrices; joints beyond the cap are
/// dropped when the skin is built.
pub const MAX_JOINTS_PER_MESH: usize = 128;

/// Why a skin was rejected when it was built.
#[derive(Clone, Copy, Debug, PartialEq, Eq, Structural)]
pub enum SkinError {
    /// There are not as many inverse bind matrices as joints.
    LengthMismatch,
}

/// One joint of a skin: the node that moves it, its inverse bind matrix and
/// its current joint matrix.
#[derive(Clone, Copy, Debug, PartialEq, Eq)]
pub struct Joint {
    pub node_id: usize,
    pub inverse_bind_matrix: [[u32; 4]; 4],
    pub matrix: [[u32; 4]; 4],
}

/// The world placement of a joint's node.
#[derive(Clone, Copy, Debug, PartialEq, Eq)]
pub enum JointNode {
    /// The cached world placement of the node.
    Placed([[u32; 4]; 4]),
    /// The skin names a node that the hierarchy does not have: the identity
    /// stands in for its placement.
    Missing,
}

/// The factors of one joint matrix: the matrix is the inverse of `root`, times
/// the placement of the joint's node, times `inverse_bind_matrix`.
#[derive(Clone, Copy, Debug, PartialEq, Eq)]
pub struct JointProduct {
    pub root: [[u32; 4]; 4],
    pub node: JointNode,
    pub inverse_bind_matrix: [[u32; 4]; 4],
}

/// How many of `n` joints a skin keeps.
pub open spec fn kept(n: nat) -> nat {
    if n <= MAX_JOINTS_PER_MESH {
        n
    } else {
        MAX_JOINTS_PER_MESH as nat
    }
}

/// The joints that a skin keeps of those given: the first `kept` of them, in
/// the order given, each at rest.
pub open spec fn kept_joints(
    joint_nodes: Seq<usize>,
    inverse_bind_matrices: Seq<[[u32; 4]; 4]>,
    rest: [[u32; 4]; 4],
) -> Seq<Joint> {
    Seq::new(
        kept(joint_nodes.len()),
        |i: int| Joint { node_id: joint_nodes[i], inverse_bind_matrix: inverse_bind_matrices[i], matrix: rest },
    )
}

/// The factors of the matrix of `joint` under root placement `root`.
pub open spec fn joint_product(joint: Joint, root: [[u32; 4]; 4], nodes: Nodes) -> JointProduct {
    JointProduct {
        root,
        node: if joint.node_id < nodes.arena().len() {
            JointNode::Placed(nodes.arena()[joint.node_id as int].global())
        } else {
            JointNode::Missing
        },
        inverse_bind_matrix: joint.inverse_bind_matrix,
    }
}

/// The factors of all joint matrices of `joints`, in joint order.
pub open spec fn joint_products(joints: Seq<Joint>, root: [[u32; 4]; 4], nodes: Nodes) -> Seq<
    JointProduct,
> {
    Seq::new(joints.len(), |i: int| joint_product(joints[i], root, nodes))
}

/// `joints` with their matrices replaced by `matrices`, joint by joint.
pub open spec fn with_matrices(joints: Seq<Joint>, matrices: Seq<[[u32; 4]; 4]>) -> Seq<Joint> {
    Seq::new(
        joints.len(),
        |i: int|
            Joint {
                node_id: joints[i].node_id,
                inverse_bind_matrix: joints[i].inverse_bind_matrix,
                matrix: matrices[i],
            },
    )
}

/// The joints that bind a mesh to the nodes of a hierarchy.
#[derive(Debug)]
pub struct Skin {
    joints: Vec<Joint>,
}

impl Skin {
    /// The joints, in the order in which they were given.
    pub closed spec fn view(&self) -> Seq<Joint> {
        self.joints@
    }

    /// A skin never holds more joints than the cap.
    #[verifier::type_invariant]
    pub closed spec fn wf(&self) -> bool {
        self.joints@.len() <= MAX_JOINTS_PER_MESH
    }

    /// Builds a skin from joint nodes and their inverse bind matrices, one
    /// per joint. Every joint matrix starts as `rest`. Of more than
    /// `MAX_JOINTS_PER_MESH` joints the first `MAX_JOINTS_PER_MESH` are kept
    /// and the others dropped.
    pub fn new(
        joint_nodes: Vec<usize>,
        inverse_bind_matrices: Vec<[[u32; 4]; 4]>,
        rest: [[u32; 4]; 4],
    ) -> (r: Result<Skin, SkinError>)
        ensures
            r is Ok <==> joint_nodes@.len() == inverse_bind_matrices@.len(),
            r matches Ok(skin) ==> skin.wf() && skin@ == kept_joints(
                joint_nodes@,
                inverse_bind_matrices@,
                rest,
            ),
    {
        if joint_nodes.len() != inverse_bind_matrices.len() {
            return Err(SkinError::LengthMismatch);
        }
        let n: usize = if joint_nodes.len() <= MAX_JOINTS_PER_MESH {
            joint_nodes.len()
        } else {
            MAX_JOINTS_PER_MESH
        };
        let mut joints: Vec<Joint> = Vec::new();
        let mut k: usize = 0;
        while k < n
            invariant
                n == kept(joint_nodes@.len()),
                joint_nodes@.len() == inverse_bind_matrices@.len(),
                0 <= k <= n,
                joints@.len() == k,
                forall|i: int|
                    0 <= i < k ==> #[trigger] joints@[i] == kept_joints(
                        joint_nodes@,
                        inverse_bind_matrices@,
                        rest,
                    )[i],
            decreases n - k,
        {
            joints.push(
                Joint {
                    node_id: joint_nodes[k],
                    inverse_bind_matrix: inverse_bind_matrices[k],
                    matrix: rest,
                },
            );
            k += 1;
        }
        assert(joints@ =~= kept_joints(joint_nodes@, inverse_bind_matrices@, rest));
        Ok(Skin { joints })
    }

    pub fn joints(&self) -> (joints: &Vec<Joint>)
        ensures
            joints@ == self@,
            joints@.len() <= MAX_JOINTS_PER_MESH,
    {
        proof {
            use_type_invariant(self);
        }
        &self.joints
    }

    /// Lists, joint by joint, the factors of the joint matrices under the
    /// root placement `transform`: its inverse, times the world placement of
    /// the joint's node, times the joint's inverse bind matrix. The matrices
    /// computed from them are stored with [`Skin::set_joint_matrices`].
    pub fn compute_joints_matrices(&self, transform: [[u32; 4]; 4], nodes: &Nodes) -> (products: Vec<
        JointProduct,
    >)
        ensures
            products@ == joint_products(self@, transform, *nodes),
            products@.len() <= MAX_JOINTS_PER_MESH,
    {
        proof {
            use_type_invariant(self);
        }
        let arena = nodes.nodes();
        let n: usize = self.joints.len();
        let mut products: Vec<JointProduct> = Vec::new();
        let mut k: usize = 0;
        while k < n
            invariant
                n == self@.len(),
                arena@ == nodes.arena(),
                0 <= k <= n,
                products@.len() == k,
                forall|i: int|
                    0 <= i < k ==> #[trigger] products@[i] == joint_product(
                        self@[i],
                        transform,
                        *nodes,
                    ),
            decreases n - k,
        {
            let joint: Joint = self.joints[k];
            let node: JointNode = if joint.node_id < arena.len() {
                JointNode::Placed(arena[joint.node_id].transform())
            } else {
                JointNode::Missing
            };
            products.push(
                JointProduct { root: transform, node, inverse_bind_matrix: joint.inverse_bind_matrix },
            );
            k += 1;
        }
        assert(products@ =~= joint_products(self@, transform, *nodes));
        products
    }

    /// Stores the joint matrices, one per joint and in joint order. Returns
    /// `false`, changing nothing, when `matrices` does not hold exactly one
    /// matrix per joint.
    pub fn set_joint_matrices(&mut self, matrices: &Vec<[[u32; 4]; 4]>) -> (stored: bool)
        ensures
            stored == (matrices@.len() == old(self)@.len()),
            stored ==> final(self)@ == with_matrices(old(self)@, matrices@),
            !stored ==> final(self)@ == old(self)@,
    {
        proof {
            use_type_invariant(&*self);
        }
        let n: usize = self.joints.len();
        if matrices.len() != n {
            return false;
        }
        let mut joints: Vec<Joint> = Vec::new();
        let mut k: usize = 0;
        while k < n
            invariant
                n == self.joints@.len(),
                n == matrices@.len(),
                0 <= k <= n,
                joints@.len() == k,
                forall|i: int|
                    0 <= i < k ==> #[trigger] joints@[i] == with_matrices(self.joints@, matrices@)[i],
            decreases n - k,
        {
            let joint: Joint = self.joints[k];
            joints.push(
                Joint {
                    node_id: joint.node_id,
                    inverse_bind_matrix: joint.inverse_bind_matrix,
                    matrix: matrices[k],
                },
            );
            k += 1;
        }
        assert(joints@ =~= with_matrices(self.joints@, matrices@));
        self.joints = joints;
        true
    }
}

} // verus!
