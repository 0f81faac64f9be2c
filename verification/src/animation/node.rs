use crate::animation::traversal::{
    children_in_range, fits, fits_children, lemma_fits_children_prefix, lemma_traversable_prefix,
    roots_in_range, traversable, traversal, visit, visit_children, Step,
};
use vstd::prelude::*;

verus! {

/// Local placement of a node, either as one 4x4 matrix or split into
/// translation, rotation (x, y, z, w) and scale. Components are 32-bit
/// patterns that the library carries without computing with them.
#[derive(Clone, Copy, Debug, PartialEq, Eq)]
pub enum Transform {
    Matrix { matrix: [[u32; 4]; 4] },
    Decomposed { translation: [u32; 3], rotation: [u32; 4], scale: [u32; 3] },
}

/// `t` with its translation replaced; a matrix transform stays as it is.
pub open spec fn with_translation(t: Transform, translation: [u32; 3]) -> Transform {
    match t {
        Transform::Decomposed { rotation, scale, .. } => Transform::Decomposed {
            translation,
            rotation,
            scale,
        },
        Transform::Matrix { matrix } => Transform::Matrix { matrix },
    }
}

/// `t` with its rotation replaced; a matrix transform stays as it is.
pub open spec fn with_rotation(t: Transform, rotation: [u32; 4]) -> Transform {
    match t {
        Transform::Decomposed { translation, scale, .. } => Transform::Decomposed {
            translation,
            rotation,
            scale,
        },
        Transform::Matrix { matrix } => Transform::Matrix { matrix },
    }
}

/// `t` with its scale replaced; a matrix transform stays as it is.
pub open spec fn with_scale(t: Transform, scale: [u32; 3]) -> Transform {
    match t {
        Transform::Decomposed { translation, rotation, .. } => Transform::Decomposed {
            translation,
            rotation,
            scale,
        },
        Transform::Matrix { matrix } => Transform::Matrix { matrix },
    }
}

/// One node of the scene graph.
#[derive(Debug)]
pub struct Node {
    local_transform: Transform,
    global_transform_matrix: [[u32; 4]; 4],
    mesh_index: Option<usize>,
    skin_index: Option<usize>,
    children_indices: Vec<usize>,
}

impl Node {
    /// The node's placement relative to its parent.
    pub closed spec fn local(&self) -> Transform {
        self.local_transform
    }

    /// The node's cached placement in the world.
    pub closed spec fn global(&self) -> [[u32; 4]; 4] {
        self.global_transform_matrix
    }

    /// The mesh that the node carries, if any.
    pub closed spec fn mesh(&self) -> Option<usize> {
        self.mesh_index
    }

    /// The skin that the node carries, if any.
    pub closed spec fn skin(&self) -> Option<usize> {
        self.skin_index
    }

    /// The node's children, as indices into the arena.
    pub closed spec fn children(&self) -> Seq<usize> {
        self.children_indices@
    }

    /// `self` and `other` differ at most in their local transform.
    pub open spec fn same_but_local(&self, other: &Node) -> bool {
        &&& self.global() == other.global()
        &&& self.mesh() == other.mesh()
        &&& self.skin() == other.skin()
        &&& self.children() == other.children()
    }

    pub fn new(
        local_transform: Transform,
        global_transform_matrix: [[u32; 4]; 4],
        mesh_index: Option<usize>,
        skin_index: Option<usize>,
        children_indices: Vec<usize>,
    ) -> (node: Node)
        ensures
            node.local() == local_transform,
            node.global() == global_transform_matrix,
            node.mesh() == mesh_index,
            node.skin() == skin_index,
            node.children() == children_indices@,
    {
        Node { local_transform, global_transform_matrix, mesh_index, skin_index, children_indices }
    }

    /// Replaces the translation of a decomposed local transform. A node whose
    /// local transform is a matrix is left unchanged.
    pub fn set_translation(&mut self, translation: [u32; 3])
        ensures
            final(self).local() == with_translation(old(self).local(), translation),
            final(self).same_but_local(old(self)),
    {
        if let Transform::Decomposed { rotation, scale, .. } = self.local_transform {
            self.local_transform = Transform::Decomposed { translation, rotation, scale };
        }
    }

    /// Replaces the rotation of a decomposed local transform. A node whose
    /// local transform is a matrix is left unchanged.
    pub fn set_rotation(&mut self, rotation: [u32; 4])
        ensures
            final(self).local() == with_rotation(old(self).local(), rotation),
            final(self).same_but_local(old(self)),
    {
        if let Transform::Decomposed { translation, scale, .. } = self.local_transform {
            self.local_transform = Transform::Decomposed { translation, rotation, scale };
        }
    }

    /// Replaces the scale of a decomposed local transform. A node whose local
    /// transform is a matrix is left unchanged.
    pub fn set_scale(&mut self, scale: [u32; 3])
        ensures
            final(self).local() == with_scale(old(self).local(), scale),
            final(self).same_but_local(old(self)),
    {
        if let Transform::Decomposed { translation, rotation, .. } = self.local_transform {
            self.local_transform = Transform::Decomposed { translation, rotation, scale };
        }
    }

    /// Stores a freshly computed world placement.
    pub fn set_global_transform(&mut self, matrix: [[u32; 4]; 4])
        ensures
            final(self).global() == matrix,
            final(self).local() == old(self).local(),
            final(self).mesh() == old(self).mesh(),
            final(self).skin() == old(self).skin(),
            final(self).children() == old(self).children(),
    {
        self.global_transform_matrix = matrix;
    }

    pub fn local_transform(&self) -> (t: Transform)
        ensures
            t == self.local(),
    {
        self.local_transform
    }

    pub fn transform(&self) -> (m: [[u32; 4]; 4])
        ensures
            m == self.global(),
    {
        self.global_transform_matrix
    }

    pub fn mesh_index(&self) -> (i: Option<usize>)
        ensures
            i == self.mesh(),
    {
        self.mesh_index
    }

    pub fn skin_index(&self) -> (i: Option<usize>)
        ensures
            i == self.skin(),
    {
        self.skin_index
    }

    pub fn children_indices(&self) -> (c: &Vec<usize>)
        ensures
            c@ == self.children(),
    {
        &self.children_indices
    }
}

/// The children lists of `nodes`, as a graph over arena indices.
pub open spec fn graph_of(nodes: Seq<Node>) -> Seq<Seq<usize>> {
    Seq::new(nodes.len(), |i: int| nodes[i].children())
}

/// Node and parent of `step` are nodes of an arena of `n` nodes.
pub open spec fn step_in_range(step: Step, n: nat) -> bool {
    &&& step.0 < n
    &&& (step.1 matches Some(p) ==> p < n)
}

/// Every step of `order` lies in an arena of `n` nodes.
pub open spec fn order_in_range(order: Seq<Step>, n: nat) -> bool {
    forall|i: int| 0 <= i < order.len() ==> step_in_range(#[trigger] order[i], n)
}

/// Appends the depth-first order of the subtree below `node_index` to
/// `indices`. Returns `false`, with `indices` in an unspecified state, when the
/// subtree leaves the arena or is deeper than `fuel` levels.
fn build_graph_run_indices_rec(
    nodes: &Vec<Node>,
    node_index: usize,
    parent_index: Option<usize>,
    fuel: usize,
    indices: &mut Vec<Step>,
) -> (ok: bool)
    requires
        parent_index matches Some(p) ==> p < nodes@.len(),
        order_in_range(old(indices)@, nodes@.len()),
    ensures
        ok == fits(graph_of(nodes@), node_index, fuel as nat),
        ok ==> final(indices)@ == old(indices)@ + visit(
            graph_of(nodes@),
            node_index,
            parent_index,
            fuel as nat,
        ),
        order_in_range(final(indices)@, nodes@.len()),
    decreases fuel,
{
    if fuel == 0 || node_index >= nodes.len() {
        return false;
    }
    let ghost g = graph_of(nodes@);
    let ghost before = indices@;
    indices.push((node_index, parent_index));
    let children: &Vec<usize> = nodes[node_index].children_indices();
    let m: usize = children.len();
    let mut k: usize = 0;
    assert(indices@ =~= before + seq![(node_index, parent_index)] + visit_children(
        g,
        node_index,
        0,
        (fuel - 1) as nat,
    ));
    while k < m
        invariant
            g == graph_of(nodes@),
            fuel > 0,
            node_index < nodes@.len(),
            children@ == g[node_index as int],
            m == children@.len(),
            0 <= k <= m,
            indices@ == before + seq![(node_index, parent_index)] + visit_children(
                g,
                node_index,
                k as nat,
                (fuel - 1) as nat,
            ),
            fits_children(g, node_index, k as nat, (fuel - 1) as nat),
            order_in_range(indices@, nodes@.len()),
        decreases m - k,
    {
        let child: usize = children[k];
        let ok: bool = build_graph_run_indices_rec(
            nodes,
            child,
            Some(node_index),
            fuel - 1,
            indices,
        );
        if !ok {
            proof {
                if fits_children(g, node_index, m as nat, (fuel - 1) as nat) {
                    lemma_fits_children_prefix(
                        g,
                        node_index,
                        (k + 1) as nat,
                        m as nat,
                        (fuel - 1) as nat,
                    );
                }
            }
            return false;
        }
        assert(indices@ =~= before + seq![(node_index, parent_index)] + visit_children(
            g,
            node_index,
            (k + 1) as nat,
            (fuel - 1) as nat,
        ));
        k += 1;
    }
    assert(indices@ =~= before + visit(g, node_index, parent_index, fuel as nat));
    true
}

/// The depth-first order of the trees below `roots_indices`, or `None` when
/// some tree leaves the arena or holds a chain of children over more nodes
/// than the arena has.
pub fn build_graph_run_indices(roots_indices: &Vec<usize>, nodes: &Vec<Node>) -> (order: Option<
    Vec<Step>,
>)
    ensures
        order is Some <==> traversable(
            graph_of(nodes@),
            roots_indices@,
            roots_indices@.len(),
        ),
        order matches Some(o) ==> {
            &&& o@ == traversal(graph_of(nodes@), roots_indices@, roots_indices@.len())
            &&& order_in_range(o@, nodes@.len())
        },
{
    let ghost g = graph_of(nodes@);
    let mut indices: Vec<Step> = Vec::new();
    let fuel: usize = nodes.len();
    let m: usize = roots_indices.len();
    let mut k: usize = 0;
    assert(indices@ =~= traversal(g, roots_indices@, 0));
    while k < m
        invariant
            g == graph_of(nodes@),
            fuel == nodes@.len(),
            m == roots_indices@.len(),
            0 <= k <= m,
            indices@ == traversal(g, roots_indices@, k as nat),
            traversable(g, roots_indices@, k as nat),
            order_in_range(indices@, nodes@.len()),
        decreases m - k,
    {
        let ok: bool = build_graph_run_indices_rec(nodes, roots_indices[k], None, fuel, &mut indices);
        if !ok {
            proof {
                if traversable(g, roots_indices@, m as nat) {
                    lemma_traversable_prefix(g, roots_indices@, (k + 1) as nat, m as nat);
                }
            }
            return None;
        }
        k += 1;
    }
    Some(indices)
}

/// Why a node hierarchy was rejected when it was built.
#[derive(Clone, Copy, Debug, PartialEq, Eq, Structural)]
pub enum HierarchyError {
    /// Some root index is not a node of the arena.
    RootOutOfRange,
    /// Some child index of some node is not a node of the arena.
    ChildOutOfRange,
    /// Some chain of children that starts at a root runs over more nodes than
    /// the arena has.
    DepthExceeded,
}

/// Where the parent placement of a propagation step comes from.
#[derive(Clone, Copy, Debug, PartialEq, Eq)]
pub enum ParentTransform {
    /// The cached world placement of this node, which an earlier step has
    /// brought up to date.
    Node(usize),
    /// The placement that the caller supplied for the roots.
    Given([[u32; 4]; 4]),
    /// The identity: a root without a supplied placement.
    Identity,
}

/// One step of propagation: the world placement of `node` becomes the parent
/// placement times the node's composed local transform.
#[derive(Clone, Copy, Debug, PartialEq, Eq)]
pub struct TransformStep {
    pub node: usize,
    pub parent: ParentTransform,
}

/// The parent placement of a step whose traversal entry names `parent`.
pub open spec fn parent_transform(
    parent: Option<usize>,
    global_transform: Option<[[u32; 4]; 4]>,
) -> ParentTransform {
    match parent {
        Some(p) => ParentTransform::Node(p),
        None => match global_transform {
            Some(m) => ParentTransform::Given(m),
            None => ParentTransform::Identity,
        },
    }
}

/// The propagation steps for a traversal order, one per entry and in the same
/// order.
pub open spec fn transform_plan(
    order: Seq<Step>,
    global_transform: Option<[[u32; 4]; 4]>,
) -> Seq<TransformStep> {
    Seq::new(
        order.len(),
        |i: int|
            TransformStep { node: order[i].0, parent: parent_transform(order[i].1, global_transform) },
    )
}

/// Skin index and world placement of each of the first `k` nodes that carries
/// a skin, in arena order.
pub open spec fn skins_transform(nodes: Seq<Node>, k: nat) -> Seq<(usize, [[u32; 4]; 4])>
    decreases k,
{
    if k == 0 {
        Seq::empty()
    } else {
        let rest = skins_transform(nodes, (k - 1) as nat);
        match nodes[k - 1].skin() {
            Some(s) => rest.push((s, nodes[k - 1].global())),
            None => rest,
        }
    }
}

/// The scene graph: an arena of nodes and the depth-first order in which
/// their world placements are brought up to date.
#[derive(Debug)]
pub struct Nodes {
    nodes: Vec<Node>,
    depth_first_taversal_indices: Vec<Step>,
}

impl Default for Nodes {
    /// A hierarchy without nodes.
    fn default() -> (h: Nodes)
        ensures
            h.arena().len() == 0,
            h.order().len() == 0,
    {
        Nodes::empty()
    }
}

impl Nodes {
    /// The nodes, by arena index.
    pub closed spec fn arena(&self) -> Seq<Node> {
        self.nodes@
    }

    /// The traversal order that was fixed when the hierarchy was built.
    pub closed spec fn order(&self) -> Seq<Step> {
        self.depth_first_taversal_indices@
    }

    /// Every entry of the traversal order names nodes of the arena.
    pub open spec fn wf(&self) -> bool {
        order_in_range(self.order(), self.arena().len())
    }

    /// The traversal order is the depth-first order of the present children
    /// lists from `roots`, and it was cut nowhere. This holds of a hierarchy
    /// as it is built, and as long as no node is replaced by one with other
    /// children.
    pub open spec fn traverses(&self, roots: Seq<usize>) -> bool {
        &&& traversable(graph_of(self.arena()), roots, roots.len())
        &&& self.order() == traversal(graph_of(self.arena()), roots, roots.len())
    }

    /// A hierarchy without nodes.
    pub fn empty() -> (h: Nodes)
        ensures
            h.arena().len() == 0,
            h.order().len() == 0,
            h.wf(),
    {
        Nodes { nodes: Vec::new(), depth_first_taversal_indices: Vec::new() }
    }

    /// Builds the hierarchy from its nodes and the indices of its roots, and
    /// fixes the traversal order: each root in the order given, each followed
    /// by the subtrees of its children in the order given.
    pub fn new(nodes: Vec<Node>, roots_indices: Vec<usize>) -> (r: Result<Nodes, HierarchyError>)
        ensures
            match r {
                Ok(h) => {
                    &&& h.arena() == nodes@
                    &&& h.order() == traversal(graph_of(nodes@), roots_indices@, roots_indices@.len())
                    &&& h.traverses(roots_indices@)
                    &&& h.wf()
                    &&& roots_in_range(roots_indices@, nodes@.len())
                    &&& children_in_range(graph_of(nodes@))
                    &&& traversable(graph_of(nodes@), roots_indices@, roots_indices@.len())
                },
                Err(HierarchyError::RootOutOfRange) => !roots_in_range(roots_indices@, nodes@.len()),
                Err(HierarchyError::ChildOutOfRange) => {
                    &&& roots_in_range(roots_indices@, nodes@.len())
                    &&& !children_in_range(graph_of(nodes@))
                },
                Err(HierarchyError::DepthExceeded) => {
                    &&& roots_in_range(roots_indices@, nodes@.len())
                    &&& children_in_range(graph_of(nodes@))
                    &&& !traversable(graph_of(nodes@), roots_indices@, roots_indices@.len())
                },
            },
    {
        let n: usize = nodes.len();
        let ghost g = graph_of(nodes@);
        let mut r: usize = 0;
        while r < roots_indices.len()
            invariant
                n == nodes@.len(),
                0 <= r <= roots_indices@.len(),
                forall|i: int| 0 <= i < r ==> roots_indices@[i] < n,
            decreases roots_indices@.len() - r,
        {
            if roots_indices[r] >= n {
                return Err(HierarchyError::RootOutOfRange);
            }
            r += 1;
        }
        let mut i: usize = 0;
        while i < n
            invariant
                n == nodes@.len(),
                g == graph_of(nodes@),
                roots_in_range(roots_indices@, n as nat),
                0 <= i <= n,
                forall|a: int, b: int| 0 <= a < i && 0 <= b < g[a].len() ==> #[trigger] g[a][b] < n,
            decreases n - i,
        {
            let children: &Vec<usize> = nodes[i].children_indices();
            let mut j: usize = 0;
            while j < children.len()
                invariant
                    n == nodes@.len(),
                    g == graph_of(nodes@),
                    roots_in_range(roots_indices@, n as nat),
                    0 <= i < n,
                    children@ == g[i as int],
                    0 <= j <= children@.len(),
                    forall|b: int| 0 <= b < j ==> #[trigger] g[i as int][b] < n,
                decreases children@.len() - j,
            {
                if children[j] >= n {
                    assert(g[i as int][j as int] >= g.len());
                    return Err(HierarchyError::ChildOutOfRange);
                }
                j += 1;
            }
            i += 1;
        }
        match build_graph_run_indices(&roots_indices, &nodes) {
            Some(depth_first_taversal_indices) => Ok(Nodes { nodes, depth_first_taversal_indices }),
            None => Err(HierarchyError::DepthExceeded),
        }
    }

    pub fn nodes(&self) -> (nodes: &Vec<Node>)
        ensures
            nodes@ == self.arena(),
    {
        &self.nodes
    }

    /// The nodes, for changing their transforms in place. Neither the number
    /// of nodes nor the traversal order can change through the slice.
    pub fn nodes_mut(&mut self) -> (nodes: &mut [Node])
        ensures
            nodes@ == old(self).arena(),
            final(self).arena() == final(nodes)@,
            final(self).order() == old(self).order(),
    {
        self.nodes.as_mut_slice()
    }

    /// The traversal order: each node with the parent it is reached from.
    pub fn depth_first_order(&self) -> (order: &Vec<Step>)
        ensures
            order@ == self.order(),
    {
        &self.depth_first_taversal_indices
    }

    /// Plans the propagation of world placements, root to leaf.
    ///
    /// The plan has one step per entry of the traversal order. A node reached
    /// from a parent takes that parent's cached world placement; a root takes
    /// `global_transform`, or the identity where none is supplied. Carrying
    /// the steps out in order, storing each product with
    /// [`Nodes::set_global_transform`], brings every placement up to date.
    pub fn transform(&self, global_transform: Option<[[u32; 4]; 4]>) -> (steps: Vec<TransformStep>)
        ensures
            steps@ == transform_plan(self.order(), global_transform),
    {
        let mut steps: Vec<TransformStep> = Vec::new();
        let n: usize = self.depth_first_taversal_indices.len();
        let mut k: usize = 0;
        while k < n
            invariant
                n == self.order().len(),
                0 <= k <= n,
                steps@.len() == k,
                forall|i: int|
                    0 <= i < k ==> #[trigger] steps@[i] == transform_plan(
                        self.order(),
                        global_transform,
                    )[i],
            decreases n - k,
        {
            let (node, parent_index) = self.depth_first_taversal_indices[k];
            let parent: ParentTransform = match parent_index {
                Some(p) => ParentTransform::Node(p),
                None => match global_transform {
                    Some(m) => ParentTransform::Given(m),
                    None => ParentTransform::Identity,
                },
            };
            steps.push(TransformStep { node, parent });
            k += 1;
        }
        assert(steps@ =~= transform_plan(self.order(), global_transform));
        steps
    }

    /// Stores the world placement of node `index`. Returns `false`, changing
    /// nothing, when there is no such node.
    pub fn set_global_transform(&mut self, index: usize, matrix: [[u32; 4]; 4]) -> (stored: bool)
        ensures
            stored == (index < old(self).arena().len()),
            final(self).order() == old(self).order(),
            final(self).arena().len() == old(self).arena().len(),
            graph_of(final(self).arena()) == graph_of(old(self).arena()),
            forall|i: int|
                0 <= i < old(self).arena().len() && i != index ==> final(self).arena()[i] == old(
                    self,
                ).arena()[i],
            stored ==> {
                let before = old(self).arena()[index as int];
                let after = final(self).arena()[index as int];
                &&& after.global() == matrix
                &&& after.local() == before.local()
                &&& after.mesh() == before.mesh()
                &&& after.skin() == before.skin()
                &&& after.children() == before.children()
            },
    {
        if index >= self.nodes.len() {
            return false;
        }
        self.nodes[index].set_global_transform(matrix);
        assert(graph_of(self.arena()) =~= graph_of(old(self).arena()));
        true
    }

    /// Skin index and world placement of every node that carries a skin, in
    /// arena order.
    pub fn get_skins_transform(&self) -> (skins: Vec<(usize, [[u32; 4]; 4])>)
        ensures
            skins@ == skins_transform(self.arena(), self.arena().len()),
    {
        let mut skins: Vec<(usize, [[u32; 4]; 4])> = Vec::new();
        let n: usize = self.nodes.len();
        let mut k: usize = 0;
        while k < n
            invariant
                n == self.arena().len(),
                0 <= k <= n,
                skins@ == skins_transform(self.arena(), k as nat),
            decreases n - k,
        {
            if let Some(skin_index) = self.nodes[k].skin_index() {
                skins.push((skin_index, self.nodes[k].transform()));
            }
            k += 1;
        }
        skins
    }
}

} // verus!
