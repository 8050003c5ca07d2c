//! What the rules need to know of a cluster.

use vstd::prelude::*;

use crate::names;
use crate::stable;
use crate::stable::Ranked;
use crate::text;

verus! {

/// A node as the control state of the cluster knows it.
#[derive(Debug, PartialEq, Eq)]
pub struct ControlNode {
    pub id: String,
    pub endpoint: String,
    pub removed: bool,
}

/// A node of the cluster.
#[derive(Debug, PartialEq, Eq)]
pub struct ClusterNode {
    pub id: String,
    pub endpoint: String,
}

/// A node as a plain value: its identifier and its endpoint.
#[verifier::ext_equal]
pub struct NodeView {
    pub id: Seq<char>,
    pub endpoint: Seq<char>,
}

impl View for ClusterNode {
    type V = NodeView;

    open spec fn view(&self) -> NodeView {
        NodeView { id: self.id@, endpoint: self.endpoint@ }
    }
}

/// The nodes of the cluster, and which of them this one is.
#[derive(Debug, PartialEq, Eq)]
pub struct MembershipView {
    pub local_node_id: String,
    pub nodes: Vec<ClusterNode>,
}

/// Whether a node comes before another: by its identifier, then by its endpoint.
pub open spec fn node_before(a: NodeView, b: NodeView) -> bool {
    text::text_less(a.id, b.id) || (a.id == b.id && text::text_less(a.endpoint, b.endpoint))
}

impl Ranked for ClusterNode {
    open spec fn before(a: NodeView, b: NodeView) -> bool {
        node_before(a, b)
    }

    proof fn lemma_before_one_way(a: NodeView, b: NodeView) {
        if text::text_less(a.id, b.id) && text::text_less(b.id, a.id) {
            names::lemma_text_transitive(a.id, b.id, a.id);
        }
        if text::text_less(a.endpoint, b.endpoint) && text::text_less(b.endpoint, a.endpoint) {
            names::lemma_text_transitive(a.endpoint, b.endpoint, a.endpoint);
        }
        names::lemma_text_irreflexive(a.id);
        names::lemma_text_irreflexive(a.endpoint);
    }

    proof fn lemma_before_ranks(a: NodeView, b: NodeView, c: NodeView) {
        if node_before(c, a) {
            if a.id != b.id {
                names::lemma_text_total(a.id, b.id);
                if text::text_less(c.id, a.id) && text::text_less(a.id, b.id) {
                    names::lemma_text_transitive(c.id, a.id, b.id);
                }
            } else if a.endpoint != b.endpoint {
                names::lemma_text_total(a.endpoint, b.endpoint);
                if text::text_less(c.endpoint, a.endpoint) && text::text_less(
                    a.endpoint,
                    b.endpoint,
                ) {
                    names::lemma_text_transitive(c.endpoint, a.endpoint, b.endpoint);
                }
            }
        }
    }

    fn goes_before(&self, other: &ClusterNode) -> (before: bool) {
        names::comes_before(self.id.as_str(), other.id.as_str()) || (names::same_text(
            self.id.as_str(),
            other.id.as_str(),
        ) && names::comes_before(self.endpoint.as_str(), other.endpoint.as_str()))
    }
}

/// The nodes that were not removed, in their order.
pub open spec fn remaining(nodes: Seq<ControlNode>) -> Seq<NodeView>
    decreases nodes.len(),
{
    if nodes.len() == 0 {
        Seq::empty()
    } else {
        let rest = remaining(nodes.drop_last());
        if nodes.last().removed {
            rest
        } else {
            rest.push(NodeView { id: nodes.last().id@, endpoint: nodes.last().endpoint@ })
        }
    }
}

/// Whether a node with an identifier is among nodes.
pub open spec fn has_node(nodes: Seq<NodeView>, id: Seq<char>) -> bool {
    exists|i: int| 0 <= i < nodes.len() && (#[trigger] nodes[i]).id == id
}

/// The nodes of the cluster that were not removed, in order; this node has to be one of them.
pub fn membership_from_control_state(local_node_id: &str, nodes: &Vec<ControlNode>) -> (membership:
    Result<MembershipView, String>)
    ensures
        if has_node(remaining(nodes@), local_node_id@) {
            membership matches Ok(view) && view.local_node_id@ == local_node_id@ && stable::views(
                view.nodes@,
            ) == stable::stable_sorted::<ClusterNode>(remaining(nodes@))
        } else {
            membership matches Err(message) && message@ == "local node '"@ + local_node_id@
                + "' missing from control-state membership"@
        },
{
    let mut kept: Vec<ClusterNode> = Vec::new();
    let mut local: bool = false;
    let mut i: usize = 0;
    proof {
        assert(nodes@.subrange(0, 0) =~= Seq::empty());
        assert(stable::views(kept@) =~= remaining(nodes@.subrange(0, 0)));
    }
    while i < nodes.len()
        invariant
            i <= nodes@.len(),
            stable::views(kept@) == remaining(nodes@.subrange(0, i as int)),
            local == has_node(stable::views(kept@), local_node_id@),
        decreases nodes@.len() - i,
    {
        let ghost before = stable::views(kept@);
        proof {
            assert(nodes@.subrange(0, i as int + 1).drop_last() =~= nodes@.subrange(0, i as int));
        }
        let node = &nodes[i];
        if !node.removed {
            let same = names::same_text(node.id.as_str(), local_node_id);
            kept.push(
                ClusterNode {
                    id: text::owned(node.id.as_str()),
                    endpoint: text::owned(node.endpoint.as_str()),
                },
            );
            proof {
                let after = stable::views(kept@);
                assert(after =~= before.push(
                    NodeView { id: node.id@, endpoint: node.endpoint@ },
                ));
                if has_node(before, local_node_id@) {
                    let k = choose|k: int|
                        0 <= k < before.len() && (#[trigger] before[k]).id == local_node_id@;
                    assert(after[k].id == local_node_id@);
                }
                if same {
                    assert(after[before.len() as int].id == local_node_id@);
                }
                if has_node(after, local_node_id@) && !same {
                    let k = choose|k: int|
                        0 <= k < after.len() && (#[trigger] after[k]).id == local_node_id@;
                    assert(before[k].id == local_node_id@);
                }
            }
            local = local || same;
        }
        i = i + 1;
    }
    assert(nodes@.subrange(0, i as int) =~= nodes@);
    if !local {
        return Err(
            text::text3(
                "local node '",
                local_node_id,
                "' missing from control-state membership",
            ),
        );
    }
    Ok(
        MembershipView {
            local_node_id: text::owned(local_node_id),
            nodes: stable::stable_sort(kept),
        },
    )
}

/// The version of the ring to read and write with: that of the control state, and at least one.
pub fn current_cluster_ring_version(control_state: Option<u64>) -> (version: u64)
    ensures
        version == match control_state {
            Some(current) => if current == 0 {
                1
            } else {
                current
            },
            None => 1,
        },
{
    match control_state {
        Some(current) => if current == 0 {
            1
        } else {
            current
        },
        None => 1,
    }
}

/// Whether the scheduler is active here: outside of a cluster always, in a cluster on the leader of
/// its consensus, or everywhere where there is none.
pub fn scheduler_enabled_here(cluster_enabled: bool, control_leader: Option<bool>) -> (enabled: bool)
    ensures
        enabled == (!cluster_enabled || control_leader != Some(false)),
{
    if !cluster_enabled {
        return true;
    }
    match control_leader {
        Some(leader) => leader,
        None => true,
    }
}

} // verus!
