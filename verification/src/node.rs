//! Node identities.

use vstd::prelude::*;

verus! {

/// The identity of a consensus participant.  Identities are owned by an
/// external identity collaborator; the engine only ever compares them
/// for equality, so a plain numeric identifier carries everything the
/// core reads.  The embedding maps its own principal type onto these
/// identifiers.
#[derive(Clone, Copy, Debug, PartialEq, Eq, Hash, Structural)]
pub struct NodeId {
    pub id: u64,
}

impl NodeId {
    pub fn new(id: u64) -> (r: NodeId)
        ensures
            r.id == id,
    {
        NodeId { id }
    }
}

/// Whether `nodes` holds `n`.
pub open spec fn seq_contains_node(nodes: Seq<NodeId>, n: NodeId) -> bool {
    exists|i: int| 0 <= i < nodes.len() && nodes[i] == n
}

/// Whether `nodes` holds no identity twice.
pub open spec fn nodes_unique(nodes: Seq<NodeId>) -> bool {
    forall|i: int, j: int| 0 <= i < j < nodes.len() ==> nodes[i] != nodes[j]
}

/// `nodes` with every occurrence of `n` removed, the order of the
/// rest kept.
pub open spec fn remove_node_spec(nodes: Seq<NodeId>, n: NodeId) -> Seq<NodeId>
    decreases nodes.len(),
{
    if nodes.len() == 0 {
        Seq::empty()
    } else {
        let rest = remove_node_spec(nodes.drop_last(), n);
        if nodes.last() == n {
            rest
        } else {
            rest.push(nodes.last())
        }
    }
}

/// What removal leaves behind: no occurrence of `n`, only members of
/// the original, every other member of the original, and no new
/// duplicates.
pub proof fn lemma_remove_node_props(pre: Seq<NodeId>, n: NodeId)
    ensures
        forall|i: int|
            0 <= i < remove_node_spec(pre, n).len() ==> (#[trigger] remove_node_spec(pre, n)[i])
                != n && pre.contains(remove_node_spec(pre, n)[i]),
        forall|x: NodeId| pre.contains(x) && x != n ==> remove_node_spec(pre, n).contains(x),
        nodes_unique(pre) ==> nodes_unique(remove_node_spec(pre, n)),
        remove_node_spec(pre, n).len() <= pre.len(),
    decreases pre.len(),
{
    let post = remove_node_spec(pre, n);
    if pre.len() == 0 {
    } else {
        let head = pre.drop_last();
        let last = pre.last();
        lemma_remove_node_props(head, n);
        let rest = remove_node_spec(head, n);
        assert(nodes_unique(pre) ==> nodes_unique(head));
        assert forall|i: int|
            0 <= i < post.len() implies (#[trigger] post[i]) != n && pre.contains(post[i]) by {
            if last == n || i < post.len() - 1 {
                assert(post[i] == rest[i]);
                assert(head.contains(rest[i]));
                let k = choose|k: int| 0 <= k < head.len() && head[k] == rest[i];
                assert(pre[k] == rest[i]);
            } else {
                assert(post[i] == last);
                assert(pre[pre.len() - 1] == last);
            }
        }
        assert forall|x: NodeId| pre.contains(x) && x != n implies post.contains(x) by {
            let k = choose|k: int| 0 <= k < pre.len() && pre[k] == x;
            if k < pre.len() - 1 {
                assert(head[k] == x);
                assert(head.contains(x));
                assert(rest.contains(x));
                let m = choose|m: int| 0 <= m < rest.len() && rest[m] == x;
                assert(post[m] == x);
            } else {
                assert(x == last);
                assert(post[post.len() - 1] == x);
            }
        }
        if nodes_unique(pre) {
            assert forall|i: int, j: int| 0 <= i < j < post.len() implies post[i] != post[j] by {
                if last != n && j == post.len() - 1 {
                    assert(post[i] == rest[i]);
                    assert(head.contains(rest[i]));
                    let k = choose|k: int| 0 <= k < head.len() && head[k] == rest[i];
                    assert(pre[k] == rest[i]);
                    assert(pre[pre.len() - 1] == last);
                } else {
                    assert(post[i] == rest[i] && post[j] == rest[j]);
                }
            }
        }
    }
}

/// Linear membership test over a node list.
pub fn nodes_contain(nodes: &Vec<NodeId>, n: NodeId) -> (r: bool)
    ensures
        r == seq_contains_node(nodes@, n),
{
    let mut i: usize = 0;
    while i < nodes.len()
        invariant
            0 <= i <= nodes@.len(),
            forall|k: int| 0 <= k < i ==> nodes@[k] != n,
        decreases nodes@.len() - i,
    {
        if nodes[i].id == n.id {
            return true;
        }
        i += 1;
    }
    false
}

/// Removes every occurrence of `n` from `nodes`, keeping the order of
/// the rest.
pub fn nodes_remove(nodes: &mut Vec<NodeId>, n: NodeId)
    ensures
        final(nodes)@ == remove_node_spec(old(nodes)@, n),
{
    let ghost orig = nodes@;
    let mut out: Vec<NodeId> = Vec::new();
    let mut i: usize = 0;
    while i < nodes.len()
        invariant
            0 <= i <= nodes@.len(),
            nodes@ == orig,
            out@ == remove_node_spec(orig.take(i as int), n),
        decreases nodes@.len() - i,
    {
        proof {
            assert(orig.take(i + 1).drop_last() == orig.take(i as int));
            assert(orig.take(i + 1).last() == orig[i as int]);
        }
        if nodes[i].id != n.id {
            out.push(nodes[i]);
        }
        i += 1;
    }
    proof {
        assert(orig.take(orig.len() as int) == orig);
    }
    *nodes = out;
}

} // verus!
