use vstd::prelude::*;

verus! {

/// One entry of a traversal order: a node and the parent it was reached from
/// (`None` for a root).
pub type Step = (usize, Option<usize>);

/// Every root is a node of the arena.
pub open spec fn roots_in_range(roots: Seq<usize>, n: nat) -> bool {
    forall|i: int| 0 <= i < roots.len() ==> roots[i] < n
}

/// Every child of every node is a node of the arena.
pub open spec fn children_in_range(g: Seq<Seq<usize>>) -> bool {
    forall|i: int, j: int| 0 <= i < g.len() && 0 <= j < g[i].len() ==> #[trigger] g[i][j] < g.len()
}

/// Depth-first order of the subtree below `node`, which was reached from
/// `parent`: the node itself, then the subtrees of its children in the order
/// given. `fuel` bounds the depth: a subtree that needs more levels is cut.
pub open spec fn visit(g: Seq<Seq<usize>>, node: usize, parent: Option<usize>, fuel: nat) -> Seq<
    Step,
>
    decreases fuel, 0nat,
{
    if fuel == 0 || node >= g.len() {
        Seq::empty()
    } else {
        seq![(node, parent)] + visit_children(
            g,
            node,
            g[node as int].len(),
            (fuel - 1) as nat,
        )
    }
}

/// Depth-first order of the subtrees of the first `k` children of `node`.
pub open spec fn visit_children(g: Seq<Seq<usize>>, node: usize, k: nat, fuel: nat) -> Seq<Step>
    decreases fuel, k,
{
    if k == 0 {
        Seq::empty()
    } else {
        visit_children(g, node, (k - 1) as nat, fuel) + visit(
            g,
            g[node as int][k - 1],
            Some(node),
            fuel,
        )
    }
}

/// The subtree below `node` lies inside the arena and is at most `fuel`
/// levels deep, so that `visit` cuts nothing.
pub open spec fn fits(g: Seq<Seq<usize>>, node: usize, fuel: nat) -> bool
    decreases fuel, 0nat,
{
    fuel > 0 && node < g.len() && fits_children(g, node, g[node as int].len(), (fuel - 1) as nat)
}

/// The subtrees of the first `k` children of `node` fit.
pub open spec fn fits_children(g: Seq<Seq<usize>>, node: usize, k: nat, fuel: nat) -> bool
    decreases fuel, k,
{
    k == 0 || (fits_children(g, node, (k - 1) as nat, fuel) && fits(
        g,
        g[node as int][k - 1],
        fuel,
    ))
}

/// Depth-first order of the trees below the first `k` roots. No chain of
/// children is followed further than over as many nodes as the arena has.
pub open spec fn traversal(g: Seq<Seq<usize>>, roots: Seq<usize>, k: nat) -> Seq<Step>
    decreases k,
{
    if k == 0 {
        Seq::empty()
    } else {
        traversal(g, roots, (k - 1) as nat) + visit(g, roots[k - 1], None, g.len())
    }
}

/// The trees below the first `k` roots fit.
pub open spec fn traversable(g: Seq<Seq<usize>>, roots: Seq<usize>, k: nat) -> bool
    decreases k,
{
    k == 0 || (traversable(g, roots, (k - 1) as nat) && fits(g, roots[k - 1], g.len()))
}

/// If the first `m` children fit, so do the first `k <= m`.
pub proof fn lemma_fits_children_prefix(g: Seq<Seq<usize>>, node: usize, k: nat, m: nat, fuel: nat)
    requires
        k <= m,
        fits_children(g, node, m, fuel),
    ensures
        fits_children(g, node, k, fuel),
    decreases m - k,
{
    if k < m {
        lemma_fits_children_prefix(g, node, k, (m - 1) as nat, fuel);
    }
}

/// If the first `m` roots can be traversed, so can the first `k <= m`.
pub proof fn lemma_traversable_prefix(g: Seq<Seq<usize>>, roots: Seq<usize>, k: nat, m: nat)
    requires
        k <= m,
        traversable(g, roots, m),
    ensures
        traversable(g, roots, k),
    decreases m - k,
{
    if k < m {
        lemma_traversable_prefix(g, roots, k, (m - 1) as nat);
    }
}

/// Some step before position `k` of `s` visits node `p`.
pub open spec fn visited_before(s: Seq<Step>, k: int, p: usize) -> bool {
    exists|j: int| 0 <= j < k && (#[trigger] s[j]).0 == p
}

/// `c` is a child of node `p`.
pub open spec fn is_child(g: Seq<Seq<usize>>, p: usize, c: usize) -> bool {
    p < g.len() && exists|b: int| 0 <= b < g[p as int].len() && #[trigger] g[p as int][b] == c
}

/// Step `k` of `s` was reached from a parent that `s` visits earlier, and the
/// step's node is a child of that parent.
pub open spec fn follows_parent(g: Seq<Seq<usize>>, s: Seq<Step>, k: int) -> bool {
    s[k].1 matches Some(p) && is_child(g, p, s[k].0) && visited_before(s, k, p)
}

/// Step `k` of `s` either starts the subtree of a child of `node` or follows
/// its parent.
pub open spec fn starts_or_follows(g: Seq<Seq<usize>>, s: Seq<Step>, node: usize, k: int) -> bool {
    ||| (s[k].1 == Some(node) && is_child(g, node, s[k].0))
    ||| follows_parent(g, s, k)
}

/// Within the order of one subtree the first step is the subtree's root, and
/// every later step follows its parent.
pub proof fn lemma_visit_shape(g: Seq<Seq<usize>>, node: usize, parent: Option<usize>, fuel: nat)
    ensures
        visit(g, node, parent, fuel).len() > 0 ==> visit(g, node, parent, fuel)[0] == (
            node,
            parent,
        ) && node < g.len(),
        forall|k: int|
            0 < k < visit(g, node, parent, fuel).len() ==> follows_parent(
                g,
                visit(g, node, parent, fuel),
                k,
            ),
    decreases fuel, 0nat,
{
    let s = visit(g, node, parent, fuel);
    if fuel > 0 && node < g.len() {
        let c = visit_children(g, node, g[node as int].len(), (fuel - 1) as nat);
        lemma_visit_children_shape(g, node, g[node as int].len(), (fuel - 1) as nat);
        assert forall|k: int| 0 < k < s.len() implies follows_parent(g, s, k) by {
            assert(s[k] == c[k - 1]);
            assert(starts_or_follows(g, c, node, k - 1));
            let p = c[k - 1].1->0;
            if p == node && is_child(g, node, c[k - 1].0) {
                assert(s[0].0 == p);
            } else {
                assert(follows_parent(g, c, k - 1));
                let j = choose|j: int| 0 <= j < k - 1 && (#[trigger] c[j]).0 == p;
                assert(s[j + 1].0 == p);
            }
        }
    }
}

/// Within the order of the subtrees of the first `m` children of `node`,
/// every step either starts one of these subtrees or follows its parent.
pub proof fn lemma_visit_children_shape(g: Seq<Seq<usize>>, node: usize, m: nat, fuel: nat)
    requires
        node < g.len(),
        m <= g[node as int].len(),
    ensures
        forall|k: int|
            0 <= k < visit_children(g, node, m, fuel).len() ==> starts_or_follows(
                g,
                visit_children(g, node, m, fuel),
                node,
                k,
            ),
    decreases fuel, m,
{
    let s = visit_children(g, node, m, fuel);
    if m > 0 {
        let a = visit_children(g, node, (m - 1) as nat, fuel);
        let child = g[node as int][m - 1];
        let b = visit(g, child, Some(node), fuel);
        lemma_visit_children_shape(g, node, (m - 1) as nat, fuel);
        lemma_visit_shape(g, child, Some(node), fuel);
        assert forall|k: int| 0 <= k < s.len() implies starts_or_follows(g, s, node, k) by {
            if k < a.len() {
                assert(s[k] == a[k]);
                assert(starts_or_follows(g, a, node, k));
                if follows_parent(g, a, k) {
                    let p = a[k].1->0;
                    let j = choose|j: int| 0 <= j < k && (#[trigger] a[j]).0 == p;
                    assert(s[j].0 == p);
                }
            } else {
                let i = k - a.len();
                assert(s[k] == b[i]);
                if i > 0 {
                    assert(follows_parent(g, b, i));
                    let p = b[i].1->0;
                    let j = choose|j: int| 0 <= j < i && (#[trigger] b[j]).0 == p;
                    assert(s[a.len() + j].0 == p);
                }
            }
        }
    }
}

/// A root step of the order: it has no parent and its node is one of the
/// first `m` roots.
pub open spec fn is_root_step(roots: Seq<usize>, m: nat, step: Step) -> bool {
    step.1 is None && exists|r: int| 0 <= r < m && #[trigger] roots[r] == step.0
}

/// In the traversal order a parent always comes before its children: every
/// step is either a root, or the child of a node that an earlier step visits.
/// So when placements are brought up to date in this order, a node always
/// reads a parent placement that is already up to date.
pub proof fn lemma_parent_precedes_child(g: Seq<Seq<usize>>, roots: Seq<usize>, m: nat, k: int)
    requires
        m <= roots.len(),
        0 <= k < traversal(g, roots, m).len(),
    ensures
        is_root_step(roots, m, traversal(g, roots, m)[k]) || follows_parent(
            g,
            traversal(g, roots, m),
            k,
        ),
    decreases m,
{
    let s = traversal(g, roots, m);
    if m > 0 {
        let a = traversal(g, roots, (m - 1) as nat);
        let b = visit(g, roots[m - 1], None, g.len());
        if k < a.len() {
            lemma_parent_precedes_child(g, roots, (m - 1) as nat, k);
            assert(s[k] == a[k]);
            if follows_parent(g, a, k) {
                let p = a[k].1->0;
                let j = choose|j: int| 0 <= j < k && (#[trigger] a[j]).0 == p;
                assert(s[j].0 == p);
            } else {
                let r = choose|r: int| 0 <= r < m - 1 && #[trigger] roots[r] == a[k].0;
                assert(roots[r] == s[k].0);
            }
        } else {
            let i = k - a.len();
            lemma_visit_shape(g, roots[m - 1], None, g.len());
            assert(s[k] == b[i]);
            if i > 0 {
                assert(follows_parent(g, b, i));
                let p = b[i].1->0;
                let j = choose|j: int| 0 <= j < i && (#[trigger] b[j]).0 == p;
                assert(s[a.len() + j].0 == p);
            } else {
                assert(roots[m - 1] == s[k].0);
            }
        }
    }
}

/// `rank` numbers the nodes so that every child has a smaller number than its
/// parent. Only a hierarchy without cycles has such a numbering.
pub open spec fn ranked(g: Seq<Seq<usize>>, rank: Seq<nat>) -> bool {
    &&& rank.len() == g.len()
    &&& forall|i: int, j: int|
        0 <= i < g.len() && 0 <= j < g[i].len() ==> (#[trigger] g[i][j]) < g.len() && rank[g[i][j] as int]
            < rank[i]
}

/// The subtree below a node of rank less than `fuel` fits.
pub proof fn lemma_ranked_fits(g: Seq<Seq<usize>>, rank: Seq<nat>, node: usize, fuel: nat)
    requires
        ranked(g, rank),
        node < g.len(),
        rank[node as int] < fuel,
    ensures
        fits(g, node, fuel),
    decreases fuel, 0nat,
{
    lemma_ranked_fits_children(g, rank, node, g[node as int].len(), (fuel - 1) as nat);
}

/// The subtrees of the children of a node of rank at most `fuel` fit.
pub proof fn lemma_ranked_fits_children(
    g: Seq<Seq<usize>>,
    rank: Seq<nat>,
    node: usize,
    m: nat,
    fuel: nat,
)
    requires
        ranked(g, rank),
        node < g.len(),
        m <= g[node as int].len(),
        rank[node as int] <= fuel,
    ensures
        fits_children(g, node, m, fuel),
    decreases fuel, m,
{
    if m > 0 {
        lemma_ranked_fits_children(g, rank, node, (m - 1) as nat, fuel);
        let child = g[node as int][m - 1];
        lemma_ranked_fits(g, rank, child, fuel);
    }
}

/// A hierarchy whose nodes can be ranked below the node count, with roots
/// inside the arena, can be traversed: neither an index check nor the depth
/// bound rejects it.
pub proof fn lemma_ranked_traversable(g: Seq<Seq<usize>>, rank: Seq<nat>, roots: Seq<usize>, m: nat)
    requires
        ranked(g, rank),
        forall|i: int| 0 <= i < g.len() ==> rank[i] < g.len(),
        roots_in_range(roots, g.len()),
        m <= roots.len(),
    ensures
        traversable(g, roots, m),
        children_in_range(g),
    decreases m,
{
    if m > 0 {
        lemma_ranked_traversable(g, rank, roots, (m - 1) as nat);
        lemma_ranked_fits(g, rank, roots[m - 1], g.len());
    }
}

} // verus!
