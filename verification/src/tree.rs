//! Trees in which each node takes up to a fixed number of children.

use crate::slices::{chunk, chunk_count};
use vstd::prelude::*;

verus! {

/// The next layer of a tree in which each node takes `k` children, the last perhaps
/// fewer. `node` says how a node relates to its children.
pub open spec fn is_chunk_layer<T>(
    node: spec_fn(Seq<T>, T) -> bool,
    layer: Seq<T>,
    k: int,
    next: Seq<T>,
) -> bool {
    &&& next.len() == chunk_count(layer.len() as int, k)
    &&& forall|j: int| 0 <= j < next.len() ==> node(chunk(layer, k, j), #[trigger] next[j])
}

/// A layer of more than one node, and the next.
pub open spec fn is_level<T>(
    node: spec_fn(Seq<T>, T) -> bool,
    layer: Seq<T>,
    k: int,
    next: Seq<T>,
) -> bool {
    layer.len() > 1 && is_chunk_layer(node, layer, k, next)
}

/// The layers of a tree with up to `k` children per node, from the leaves up.
pub open spec fn is_chunk_tree<T>(
    node: spec_fn(Seq<T>, T) -> bool,
    layers: Seq<Seq<T>>,
    k: int,
) -> bool {
    &&& layers.len() > 0
    &&& forall|l: int|
        0 < l < layers.len() ==> is_level(node, layers[l - 1], k, #[trigger] layers[l])
}

/// One more layer.
pub proof fn lemma_chunk_tree_push<T>(
    node: spec_fn(Seq<T>, T) -> bool,
    layers: Seq<Seq<T>>,
    k: int,
    next: Seq<T>,
)
    requires
        is_chunk_tree(node, layers, k),
        is_level(node, layers.last(), k, next),
    ensures
        is_chunk_tree(node, layers.push(next), k),
{
    let grown = layers.push(next);
    assert forall|l: int| 0 < l < grown.len() implies is_level(
        node,
        grown[l - 1],
        k,
        #[trigger] grown[l],
    ) by {
        if l < layers.len() {
            assert(grown[l] == layers[l]);
        }
    }
}

} // verus!
