//! The deterministic binary hash tree over a block's transaction hashes,
//! built by an outside crate with this library's fixed pairwise combiner.

use vstd::prelude::*;
use crate::crypto::{blake2b, spec_blake2b};

verus! {

/// The root of the complete binary hash tree over a non-empty list of
/// 32-byte leaves, combined pairwise with `spec_merge`. A function of the
/// leaf list alone.
pub uninterp spec fn spec_merkle_root(leaves: Seq<Seq<u8>>) -> Seq<u8>;

/// The fixed combiner: the digest of the two children, left then right.
pub open spec fn spec_merge(a: Seq<u8>, b: Seq<u8>) -> Seq<u8> {
    spec_blake2b(a + b)
}

/// Combine two tree nodes into their parent.
pub fn merge_hash(a: &Vec<u8>, b: &Vec<u8>) -> (r: Vec<u8>)
    ensures
        r@ == spec_merge(a@, b@),
        r@.len() == 32,
{
    let mut m = a.clone();
    m.extend_from_slice(b.as_slice());
    assert(m@ =~= a@ + b@);
    blake2b(&m)
}

/// The view of every leaf in the list.
pub open spec fn leaf_views(leaves: Seq<Vec<u8>>) -> Seq<Seq<u8>> {
    leaves.map_values(|l: Vec<u8>| l@)
}

/// Every leaf in the list is 32 bytes long.
pub open spec fn leaves_wf(leaves: Seq<Vec<u8>>) -> bool {
    forall|i: int| 0 <= i < leaves.len() ==> (#[trigger] leaves[i])@.len() == 32
}

/// The leaf views are the leaves' views, index by index.
pub proof fn lemma_leaf_views(leaves: Seq<Vec<u8>>)
    ensures
        leaf_views(leaves).len() == leaves.len(),
        forall|i: int| 0 <= i < leaves.len() ==> (#[trigger] leaf_views(leaves)[i]) == leaves[i]@,
{
}

/// Relies on static_merkle_tree::Tree::from_hashes with `merge_hash` as the
/// combiner, and on Tree::get_root_hash: a non-empty list has a root, the
/// root of a single leaf is that leaf, and otherwise the root is a combiner
/// output, so 32 bytes long either way.
#[verifier::external_body]
pub fn merkle_root(leaves: &Vec<Vec<u8>>) -> (r: Vec<u8>)
    requires
        leaves@.len() > 0,
        leaves_wf(leaves@),
    ensures
        r@ == spec_merkle_root(leaf_views(leaves@)),
        leaves@.len() == 1 ==> r@ == leaves@[0]@,
        r@.len() == 32,
{
    let tree = static_merkle_tree::Tree::from_hashes(
        leaves.clone(),
        |x: &Vec<u8>, y: &Vec<u8>| merge_hash(x, y),
    );
    tree.get_root_hash().expect("a non-empty leaf list has a root").clone()
}

/// The root is deterministic: it depends on the leaf list alone.
pub proof fn lemma_merkle_root_deterministic(l1: Seq<Seq<u8>>, l2: Seq<Seq<u8>>)
    requires
        l1 == l2,
    ensures
        spec_merkle_root(l1) == spec_merkle_root(l2),
{
}

} // verus!
