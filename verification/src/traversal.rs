//! Depth-first traversal of the octree.

use crate::model::{
    lemma_pending_push, lemma_preorder_first, pending, preorder, preorder_from, TreeModel,
};
use crate::node::{node_models, OctreeNode};
use vstd::prelude::*;

verus! {

/// A depth-first traversal of an octree, in progress: it yields the nodes one
/// by one, each node before its children and the children in canonical order.
pub struct DepthFirstIter<'a> {
    stack: Vec<&'a OctreeNode>,
}

/// The models of a row of borrowed nodes, in order.
pub open spec fn ref_models(nodes: Seq<&OctreeNode>) -> Seq<TreeModel> {
    Seq::new(nodes.len(), |i: int| (*nodes[i]).model())
}

impl<'a> DepthFirstIter<'a> {
    /// The nodes that the traversal has still to yield, in order.
    pub closed spec fn remaining(self) -> Seq<TreeModel> {
        pending(ref_models(self.stack@))
    }

    /// A traversal of the node and of all that hangs below it, at its start.
    pub fn new(root: &'a OctreeNode) -> (iter: Self)
        ensures
            iter.remaining() == preorder(root.model()),
    {
        let mut queue = Vec::new();
        queue.push(root);
        proof {
            let nothing = Seq::<TreeModel>::empty();
            assert(ref_models(queue@) =~= nothing.push(root.model()));
            lemma_pending_push(nothing, root.model());
            assert(preorder(root.model()) + pending(nothing) =~= preorder(root.model()));
        }
        DepthFirstIter { stack: queue }
    }

    /// Yields the next node, or `None` when the traversal is over.
    pub fn next(&mut self) -> (r: Option<&'a OctreeNode>)
        ensures
            old(self).remaining().len() == 0 ==> r is None && final(self).remaining().len() == 0,
            old(self).remaining().len() > 0 ==> r is Some,
            r matches Some(node) ==> node.model() == old(self).remaining()[0]
                && final(self).remaining() == old(self).remaining().skip(1),
    {
        let ghost before = ref_models(self.stack@);
        if let Some(next_node) = self.stack.pop() {
            let ghost rest = ref_models(self.stack@);
            proof {
                assert(rest =~= before.drop_last());
                assert(before.last() == next_node.model());
                lemma_preorder_first(next_node.model());
            }
            // Check if the node has children
            if let Some(children) = next_node.children() {
                let ghost below = node_models(children@);
                // Enqueue all children, the first one on top
                let mut j: usize = children.len();
                while j > 0
                    invariant
                        j <= children@.len(),
                        below == node_models(children@),
                        pending(ref_models(self.stack@)) == preorder_from(below, j as int)
                            + pending(rest),
                    decreases j,
                {
                    j -= 1;
                    let ghost stacked = ref_models(self.stack@);
                    let child: &'a OctreeNode = &*children[j];
                    self.stack.push(child);
                    proof {
                        assert(ref_models(self.stack@) =~= stacked.push(below[j as int]));
                        lemma_pending_push(stacked, below[j as int]);
                        assert(pending(ref_models(self.stack@)) =~= preorder_from(below, j as int)
                            + pending(rest));
                    }
                }
                assert(pending(before).skip(1) =~= pending(ref_models(self.stack@)));
            } else {
                assert(pending(before).skip(1) =~= pending(ref_models(self.stack@)));
            }

            Some(next_node)
        } else {
            None
        }
    }
}

} // verus!
