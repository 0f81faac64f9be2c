use crate::animation::node::{transform_plan, ParentTransform, TransformStep};
use crate::animation::traversal::{
    fits, fits_children, follows_parent, is_child, lemma_parent_precedes_child, traversable,
    traversal, visit, visit_children, Step,
};
use vstd::prelude::*;

verus! {

/// Every step of `s` visits a node of an arena of `n` nodes.
pub open spec fn in_arena(s: Seq<Step>, n: nat) -> bool {
    forall|j: int| 0 <= j < s.len() ==> (#[trigger] s[j]).0 < n
}

/// Some step of `s` visits node `x`.
pub open spec fn visits(s: Seq<Step>, x: usize) -> bool {
    exists|q: int| 0 <= q < s.len() && (#[trigger] s[q]).0 == x
}

/// Child number `b` of the node of step `j` is visited after step `j`.
pub open spec fn child_follows(g: Seq<Seq<usize>>, s: Seq<Step>, j: int, b: int) -> bool {
    exists|q: int| j < q < s.len() && (#[trigger] s[q]).0 == g[s[j].0 as int][b]
}

/// Whenever `s` visits a node, it visits each of the node's children later.
pub open spec fn children_follow(g: Seq<Seq<usize>>, s: Seq<Step>) -> bool {
    forall|j: int, b: int|
        0 <= j < s.len() && 0 <= b < g[s[j].0 as int].len() ==> child_follows(g, s, j, b)
}

/// No step after step `k` visits the node of step `k`.
pub open spec fn is_last_visit(s: Seq<Step>, k: int) -> bool {
    forall|j: int| k < j < s.len() ==> (#[trigger] s[j]).0 != s[k].0
}

/// The parent placement that a step reads: the placement of its parent as it
/// is in `placements`, or `root` for a step without parent.
pub open spec fn parent_value<M>(placements: Seq<M>, parent: Option<usize>, root: M) -> M {
    match parent {
        Some(p) => placements[p as int],
        None => root,
    }
}

/// The world placements after the first `k` steps of `order` have been
/// carried out on `globals`: each step stores, for its node, the product of
/// the parent placement it reads and the node's local placement; a step for
/// a node without placement stores nothing. `product` stands for the matrix
/// product and `root` for the placement given to the roots.
pub open spec fn propagated<M>(
    order: Seq<Step>,
    k: nat,
    globals: Seq<M>,
    locals: Seq<M>,
    root: M,
    product: spec_fn(M, M) -> M,
) -> Seq<M>
    decreases k,
{
    if k == 0 {
        globals
    } else {
        let before = propagated(order, (k - 1) as nat, globals, locals, root, product);
        let step = order[k - 1];
        if step.0 < before.len() {
            before.update(
                step.0 as int,
                product(parent_value(before, step.1, root), locals[step.0 as int]),
            )
        } else {
            before
        }
    }
}

proof fn lemma_children_follow_concat(g: Seq<Seq<usize>>, a: Seq<Step>, b: Seq<Step>)
    requires
        children_follow(g, a),
        children_follow(g, b),
    ensures
        children_follow(g, a + b),
{
    let s = a + b;
    assert forall|j: int, c: int|
        0 <= j < s.len() && 0 <= c < g[s[j].0 as int].len() implies child_follows(g, s, j, c) by {
        if j < a.len() {
            assert(s[j] == a[j]);
            assert(child_follows(g, a, j, c));
            let q = choose|q: int| j < q < a.len() && (#[trigger] a[q]).0 == g[a[j].0 as int][c];
            assert(s[q] == a[q]);
        } else {
            let i = j - a.len();
            assert(s[j] == b[i]);
            assert(child_follows(g, b, i, c));
            let q = choose|q: int| i < q < b.len() && (#[trigger] b[q]).0 == g[b[i].0 as int][c];
            assert(s[a.len() + q] == b[q]);
        }
    }
}

/// The order of a subtree that fits starts at the subtree's root, stays inside
/// the arena, and visits the children of every node it visits after that
/// node.
pub proof fn lemma_visit_complete(g: Seq<Seq<usize>>, node: usize, parent: Option<usize>, fuel: nat)
    requires
        fits(g, node, fuel),
    ensures
        visit(g, node, parent, fuel).len() > 0,
        visit(g, node, parent, fuel)[0].0 == node,
        in_arena(visit(g, node, parent, fuel), g.len()),
        children_follow(g, visit(g, node, parent, fuel)),
    decreases fuel, 0nat,
{
    let m = g[node as int].len();
    let c = visit_children(g, node, m, (fuel - 1) as nat);
    let s = visit(g, node, parent, fuel);
    lemma_visit_children_complete(g, node, m, (fuel - 1) as nat);
    assert forall|j: int| 0 <= j < s.len() implies (#[trigger] s[j]).0 < g.len() by {
        if j > 0 {
            assert(s[j] == c[j - 1]);
        }
    }
    assert forall|j: int, b: int|
        0 <= j < s.len() && 0 <= b < g[s[j].0 as int].len() implies child_follows(g, s, j, b) by {
        if j == 0 {
            assert(visits(c, g[node as int][b]));
            let q = choose|q: int| 0 <= q < c.len() && (#[trigger] c[q]).0 == g[node as int][b];
            assert(s[q + 1] == c[q]);
        } else {
            assert(s[j] == c[j - 1]);
            assert(child_follows(g, c, j - 1, b));
            let q = choose|q: int|
                j - 1 < q < c.len() && (#[trigger] c[q]).0 == g[c[j - 1].0 as int][b];
            assert(s[q + 1] == c[q]);
        }
    }
}

/// The order of the subtrees of the first `m` children of `node`, all of
/// which fit, visits each of these children, stays inside the arena, and
/// visits the children of every node it visits after that node.
pub proof fn lemma_visit_children_complete(g: Seq<Seq<usize>>, node: usize, m: nat, fuel: nat)
    requires
        node < g.len(),
        m <= g[node as int].len(),
        fits_children(g, node, m, fuel),
    ensures
        in_arena(visit_children(g, node, m, fuel), g.len()),
        children_follow(g, visit_children(g, node, m, fuel)),
        forall|b: int|
            0 <= b < m ==> #[trigger] visits(visit_children(g, node, m, fuel), g[node as int][b]),
    decreases fuel, m,
{
    let s = visit_children(g, node, m, fuel);
    if m > 0 {
        let a = visit_children(g, node, (m - 1) as nat, fuel);
        let child = g[node as int][m - 1];
        let v = visit(g, child, Some(node), fuel);
        lemma_visit_children_complete(g, node, (m - 1) as nat, fuel);
        lemma_visit_complete(g, child, Some(node), fuel);
        lemma_children_follow_concat(g, a, v);
        assert forall|j: int| 0 <= j < s.len() implies (#[trigger] s[j]).0 < g.len() by {
            if j < a.len() {
                assert(s[j] == a[j]);
            } else {
                assert(s[j] == v[j - a.len()]);
            }
        }
        assert forall|b: int| 0 <= b < m implies #[trigger] visits(s, g[node as int][b]) by {
            if b < m - 1 {
                assert(visits(a, g[node as int][b]));
                let q = choose|q: int| 0 <= q < a.len() && (#[trigger] a[q]).0 == g[node as int][b];
                assert(s[q] == a[q]);
            } else {
                assert(s[a.len() as int] == v[0]);
            }
        }
    }
}

/// A traversal order that was cut nowhere stays inside the arena and visits
/// the children of every node it visits after that node.
pub proof fn lemma_traversal_complete(g: Seq<Seq<usize>>, roots: Seq<usize>, m: nat)
    requires
        m <= roots.len(),
        traversable(g, roots, m),
    ensures
        in_arena(traversal(g, roots, m), g.len()),
        children_follow(g, traversal(g, roots, m)),
    decreases m,
{
    let s = traversal(g, roots, m);
    if m > 0 {
        let a = traversal(g, roots, (m - 1) as nat);
        let v = visit(g, roots[m - 1], None, g.len());
        lemma_traversal_complete(g, roots, (m - 1) as nat);
        lemma_visit_complete(g, roots[m - 1], None, g.len());
        lemma_children_follow_concat(g, a, v);
        assert forall|j: int| 0 <= j < s.len() implies (#[trigger] s[j]).0 < g.len() by {
            if j < a.len() {
                assert(s[j] == a[j]);
            } else {
                assert(s[j] == v[j - a.len()]);
            }
        }
    }
}

/// Carrying out steps neither adds nor removes placements.
pub proof fn lemma_propagated_len<M>(
    order: Seq<Step>,
    k: nat,
    globals: Seq<M>,
    locals: Seq<M>,
    root: M,
    product: spec_fn(M, M) -> M,
)
    ensures
        propagated(order, k, globals, locals, root, product).len() == globals.len(),
    decreases k,
{
    if k > 0 {
        lemma_propagated_len(order, (k - 1) as nat, globals, locals, root, product);
    }
}

/// Steps that do not visit node `x` leave its placement as it is.
pub proof fn lemma_propagated_frame<M>(
    order: Seq<Step>,
    a: nat,
    m: nat,
    globals: Seq<M>,
    locals: Seq<M>,
    root: M,
    product: spec_fn(M, M) -> M,
    x: usize,
)
    requires
        a <= m <= order.len(),
        x < globals.len(),
        forall|j: int| a <= j < m ==> (#[trigger] order[j]).0 != x,
    ensures
        propagated(order, m, globals, locals, root, product)[x as int] == propagated(
            order,
            a,
            globals,
            locals,
            root,
            product,
        )[x as int],
    decreases m - a,
{
    if a < m {
        lemma_propagated_frame(order, a, (m - 1) as nat, globals, locals, root, product, x);
        lemma_propagated_len(order, (m - 1) as nat, globals, locals, root, product);
        assert(order[m - 1].0 != x);
    }
}

/// After propagation along the traversal order, the placement of a node is
/// the product of its parent's placement and its own local placement, where
/// the parent's placement is the one that holds after propagation, not one
/// from before. The parent is the one from which the node was last reached,
/// and a root takes `root` in its parent's place.
///
/// `k` is any step that is the last visit of its node. Where every node is
/// reached once, that is every step; a node with two parents, or a root that
/// is also a child, is reached more often, and its last visit counts.
pub proof fn lemma_propagation_reads_updated_parent<M>(
    g: Seq<Seq<usize>>,
    roots: Seq<usize>,
    globals: Seq<M>,
    locals: Seq<M>,
    root: M,
    product: spec_fn(M, M) -> M,
    k: int,
)
    requires
        traversable(g, roots, roots.len()),
        globals.len() == g.len(),
        0 <= k < traversal(g, roots, roots.len()).len(),
        is_last_visit(traversal(g, roots, roots.len()), k),
    ensures
        ({
            let order = traversal(g, roots, roots.len());
            let after = propagated(order, order.len(), globals, locals, root, product);
            after[order[k].0 as int] == product(
                parent_value(after, order[k].1, root),
                locals[order[k].0 as int],
            )
        }),
{
    let order = traversal(g, roots, roots.len());
    let n = order[k].0;
    let at_k = propagated(order, k as nat, globals, locals, root, product);
    let after = propagated(order, order.len(), globals, locals, root, product);
    lemma_traversal_complete(g, roots, roots.len());
    lemma_propagated_len(order, k as nat, globals, locals, root, product);
    assert(n < g.len());
    lemma_propagated_frame(order, (k + 1) as nat, order.len(), globals, locals, root, product, n);
    assert(propagated(order, (k + 1) as nat, globals, locals, root, product)[n as int] == product(
        parent_value(at_k, order[k].1, root),
        locals[n as int],
    ));
    if let Some(p) = order[k].1 {
        lemma_parent_precedes_child(g, roots, roots.len(), k);
        assert(follows_parent(g, order, k));
        assert(is_child(g, p, n));
        let b = choose|b: int| 0 <= b < g[p as int].len() && #[trigger] g[p as int][b] == n;
        assert forall|j: int| k <= j < order.len() implies (#[trigger] order[j]).0 != p by {
            if order[j].0 == p {
                assert(child_follows(g, order, j, b));
                let q = choose|q: int|
                    j < q < order.len() && (#[trigger] order[q]).0 == g[order[j].0 as int][b];
                assert(order[q].0 != order[k].0);
            }
        }
        lemma_propagated_frame(order, k as nat, order.len(), globals, locals, root, product, p);
    }
}

/// Step `k` is the last visit of `node` in `s`.
pub open spec fn is_last_visit_of(s: Seq<Step>, node: usize, k: int) -> bool {
    0 <= k < s.len() && s[k].0 == node && is_last_visit(s, k)
}

proof fn lemma_last_visit_from(s: Seq<Step>, node: usize, k: int)
    requires
        0 <= k < s.len(),
        s[k].0 == node,
    ensures
        exists|j: int| is_last_visit_of(s, node, j),
    decreases s.len() - k,
{
    if exists|j: int| k < j < s.len() && (#[trigger] s[j]).0 == node {
        let j = choose|j: int| k < j < s.len() && (#[trigger] s[j]).0 == node;
        lemma_last_visit_from(s, node, j);
    } else {
        assert(is_last_visit_of(s, node, k));
    }
}

/// After propagation along the traversal order, the placement of every node
/// that the order visits is the product of a parent placement and the node's
/// local placement, where the parent placement is the one that holds after
/// propagation: that of the parent from which the node was last reached, or
/// `root` for a root.
pub proof fn lemma_every_visited_node_composes<M>(
    g: Seq<Seq<usize>>,
    roots: Seq<usize>,
    globals: Seq<M>,
    locals: Seq<M>,
    root: M,
    product: spec_fn(M, M) -> M,
    node: usize,
)
    requires
        traversable(g, roots, roots.len()),
        globals.len() == g.len(),
        visits(traversal(g, roots, roots.len()), node),
    ensures
        ({
            let order = traversal(g, roots, roots.len());
            let after = propagated(order, order.len(), globals, locals, root, product);
            exists|k: int|
                #[trigger] is_last_visit_of(order, node, k) && after[node as int] == product(
                    parent_value(after, order[k].1, root),
                    locals[node as int],
                )
        }),
{
    let order = traversal(g, roots, roots.len());
    let q = choose|q: int| 0 <= q < order.len() && (#[trigger] order[q]).0 == node;
    lemma_last_visit_from(order, node, q);
    let k = choose|k: int| is_last_visit_of(order, node, k);
    lemma_propagation_reads_updated_parent(g, roots, globals, locals, root, product, k);
}

/// The world placements after the first `k` steps of a propagation plan have
/// been carried out on `globals`: each step stores, for its node, the product
/// of the parent placement it names and the node's local placement. `product`
/// stands for the matrix product, and `root` for the placement that a step
/// without parent node takes: the given one, or the identity.
pub open spec fn carried_out<M>(
    plan: Seq<TransformStep>,
    k: nat,
    globals: Seq<M>,
    locals: Seq<M>,
    root: M,
    product: spec_fn(M, M) -> M,
) -> Seq<M>
    decreases k,
{
    if k == 0 {
        globals
    } else {
        let before = carried_out(plan, (k - 1) as nat, globals, locals, root, product);
        let step = plan[k - 1];
        let parent = match step.parent {
            ParentTransform::Node(p) => before[p as int],
            _ => root,
        };
        if step.node < before.len() {
            before.update(step.node as int, product(parent, locals[step.node as int]))
        } else {
            before
        }
    }
}

/// Carrying out the plan for a traversal order is propagation along that
/// order.
pub proof fn lemma_plan_propagates<M>(
    order: Seq<Step>,
    global_transform: Option<[[u32; 4]; 4]>,
    k: nat,
    globals: Seq<M>,
    locals: Seq<M>,
    root: M,
    product: spec_fn(M, M) -> M,
)
    requires
        k <= order.len(),
    ensures
        carried_out(transform_plan(order, global_transform), k, globals, locals, root, product)
            == propagated(order, k, globals, locals, root, product),
    decreases k,
{
    if k > 0 {
        lemma_plan_propagates(order, global_transform, (k - 1) as nat, globals, locals, root, product);
    }
}

/// After the plan of a hierarchy has been carried out, the placement of a
/// node is the product of its parent's placement after the pass and its own
/// local placement; see [`lemma_propagation_reads_updated_parent`].
pub proof fn lemma_plan_reads_updated_parent<M>(
    g: Seq<Seq<usize>>,
    roots: Seq<usize>,
    global_transform: Option<[[u32; 4]; 4]>,
    globals: Seq<M>,
    locals: Seq<M>,
    root: M,
    product: spec_fn(M, M) -> M,
    k: int,
)
    requires
        traversable(g, roots, roots.len()),
        globals.len() == g.len(),
        0 <= k < traversal(g, roots, roots.len()).len(),
        is_last_visit(traversal(g, roots, roots.len()), k),
    ensures
        ({
            let order = traversal(g, roots, roots.len());
            let plan = transform_plan(order, global_transform);
            let after = carried_out(plan, plan.len(), globals, locals, root, product);
            after[plan[k].node as int] == product(
                match plan[k].parent {
                    ParentTransform::Node(p) => after[p as int],
                    _ => root,
                },
                locals[plan[k].node as int],
            )
        }),
{
    let order = traversal(g, roots, roots.len());
    lemma_plan_propagates(order, global_transform, order.len(), globals, locals, root, product);
    lemma_propagation_reads_updated_parent(g, roots, globals, locals, root, product, k);
}

} // verus!
