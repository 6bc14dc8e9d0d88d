//! Merkle roots and proofs over leaf hashes.
//!
//! The root of a level of hashes is built by hashing the level pairwise,
//! bottom-up, duplicating the last hash of a level with odd cardinality,
//! until one hash remains.  A proof for a leaf is the list of siblings
//! met on the way up; verifying folds the siblings back into the leaf,
//! taking the left or right position from the bit pattern of the index.

use vstd::prelude::*;

use crate::bytes::{concat_bytes, slice_eq};
use crate::hash::{sha256, sha256_of};

verus! {

/// The hash of the concatenation of two sibling hashes.
pub open spec fn hash_pair(a: Seq<u8>, b: Seq<u8>) -> Seq<u8> {
    sha256_of(a + b)
}

/// The sequence of `Vec<u8>` views of a sequence of byte vectors.
pub open spec fn bytes_view(v: Seq<Vec<u8>>) -> Seq<Seq<u8>> {
    v.map_values(|x: Vec<u8>| x@)
}

/// One level of the Merkle tree hashed pairwise into the next, the
/// last hash standing in for its own sibling when the level is odd.
pub open spec fn level_up(level: Seq<Seq<u8>>) -> Seq<Seq<u8>> {
    Seq::new(
        (level.len() + 1) / 2,
        |i: int|
            hash_pair(
                level[2 * i],
                if 2 * i + 1 < level.len() {
                    level[2 * i + 1]
                } else {
                    level[2 * i]
                },
            ),
    )
}

/// The Merkle root of a sequence of leaf hashes: empty for no leaves,
/// the leaf itself for one, and otherwise the root of the next level.
pub open spec fn merkle_root_of(leaves: Seq<Seq<u8>>) -> Seq<u8>
    decreases leaves.len(),
{
    if leaves.len() == 0 {
        Seq::empty()
    } else if leaves.len() == 1 {
        leaves[0]
    } else {
        merkle_root_of(level_up(leaves))
    }
}

/// Folds a proof into a leaf hash: at each step the leaf is the left
/// operand when the index is even and the right operand when odd, and
/// the index moves one level up.
pub open spec fn merkle_fold(leaf: Seq<u8>, path: Seq<Seq<u8>>, index: nat) -> Seq<u8>
    decreases path.len(),
{
    if path.len() == 0 {
        leaf
    } else {
        let combined = if index % 2 == 0 {
            hash_pair(leaf, path[0])
        } else {
            hash_pair(path[0], leaf)
        };
        merkle_fold(combined, path.drop_first(), index / 2)
    }
}

/// The siblings met on the way from leaf `index` to the root.
pub open spec fn merkle_path(level: Seq<Seq<u8>>, index: nat) -> Seq<Seq<u8>>
    decreases level.len(),
{
    if level.len() <= 1 {
        Seq::empty()
    } else {
        let sib = if index % 2 == 0 {
            if index + 1 < level.len() {
                level[index + 1 as int]
            } else {
                level[index as int]
            }
        } else {
            level[index - 1]
        };
        seq![sib] + merkle_path(level_up(level), index / 2)
    }
}

/// Computes the Merkle root of a list of leaf hashes.
pub fn compute_merkle_root(data_hashes: &Vec<Vec<u8>>) -> (r: Vec<u8>)
    ensures
        r@ == merkle_root_of(bytes_view(data_hashes@)),
{
    if data_hashes.len() == 0 {
        return Vec::new();
    }
    let mut level: Vec<Vec<u8>> = data_hashes.clone();
    proof {
        assert(bytes_view(level@) =~= bytes_view(data_hashes@));
    }
    while level.len() > 1
        invariant
            level@.len() >= 1,
            merkle_root_of(bytes_view(level@)) == merkle_root_of(bytes_view(data_hashes@)),
        decreases level@.len(),
    {
        let next = level_up_exec(&level);
        proof {
            assert(bytes_view(level@).len() >= 2);
        }
        level = next;
    }
    let r = level[0].clone();
    proof {
        assert(r@ == bytes_view(level@)[0]);
    }
    r
}

/// Hashes one level of the tree into the next.
fn level_up_exec(level: &Vec<Vec<u8>>) -> (r: Vec<Vec<u8>>)
    requires
        level@.len() >= 2,
    ensures
        bytes_view(r@) == level_up(bytes_view(level@)),
        r@.len() == (level@.len() + 1) / 2,
{
    let mut next: Vec<Vec<u8>> = Vec::new();
    let mut i: usize = 0;
    let half = level.len() / 2 + level.len() % 2;
    proof {
        assert(half == (level@.len() + 1) / 2);
    }
    while i < half
        invariant
            level@.len() >= 2,
            level@.len() <= usize::MAX,
            half == (level@.len() + 1) / 2,
            0 <= i <= half,
            next@.len() == i,
            forall|k: int|
                0 <= k < i ==> bytes_view(next@)[k] == level_up(bytes_view(level@))[k],
        decreases half - i,
    {
        proof {
            assert(2 * (i as int) + 1 <= level@.len());
        }
        let left = &level[2 * i];
        let combined = if 2 * i + 1 < level.len() {
            concat_bytes(left.as_slice(), level[2 * i + 1].as_slice())
        } else {
            concat_bytes(left.as_slice(), left.as_slice())
        };
        let h = sha256(combined.as_slice());
        proof {
            let lv = bytes_view(level@);
            assert(lv[2 * (i as int)] == level@[2 * (i as int)]@);
            if 2 * i + 1 < level.len() {
                assert(lv[2 * (i as int) + 1] == level@[2 * (i as int) + 1]@);
            }
            assert(h@ == level_up(lv)[i as int]);
        }
        let ghost prev = next@;
        next.push(h);
        proof {
            let lv = bytes_view(level@);
            assert forall|k: int| 0 <= k < i + 1 implies bytes_view(next@)[k] == level_up(lv)[k]
            by {
                if k < i {
                    assert(bytes_view(next@)[k] == prev[k]@);
                    assert(bytes_view(prev)[k] == prev[k]@);
                } else {
                    assert(next@[k] == h);
                }
            }
        }
        i += 1;
    }
    proof {
        assert(bytes_view(next@) =~= level_up(bytes_view(level@)));
    }
    next
}

/// Verifies a Merkle proof: accepts exactly when folding the siblings
/// into the leaf hash, with left/right ordering taken from `index`,
/// reproduces `root`.
pub fn verify_merkle_proof(leaf_hash: &[u8], path: &Vec<Vec<u8>>, root: &[u8], index: usize) -> (r:
    bool)
    ensures
        r == (merkle_fold(leaf_hash@, bytes_view(path@), index as nat) == root@),
{
    let mut current: Vec<u8> = concat_bytes(leaf_hash, &[]);
    proof {
        assert(current@ =~= leaf_hash@);
        assert(bytes_view(path@).skip(0) =~= bytes_view(path@));
    }
    let mut idx: usize = index;
    let mut i: usize = 0;
    while i < path.len()
        invariant
            0 <= i <= path@.len(),
            merkle_fold(leaf_hash@, bytes_view(path@), index as nat) == merkle_fold(
                current@,
                bytes_view(path@).skip(i as int),
                idx as nat,
            ),
        decreases path@.len() - i,
    {
        let sibling = &path[i];
        let combined = if idx % 2 == 0 {
            concat_bytes(current.as_slice(), sibling.as_slice())
        } else {
            concat_bytes(sibling.as_slice(), current.as_slice())
        };
        proof {
            let rest = bytes_view(path@).skip(i as int);
            assert(rest[0] == path@[i as int]@);
            assert(rest.drop_first() =~= bytes_view(path@).skip(i + 1));
        }
        current = sha256(combined.as_slice());
        idx = idx / 2;
        i += 1;
    }
    proof {
        assert(bytes_view(path@).skip(path@.len() as int) =~= Seq::<Seq<u8>>::empty());
    }
    slice_eq(current.as_slice(), root)
}

/// Builds the Merkle proof for the leaf at `index`: the sibling of the
/// leaf's position at each level, bottom-up.
pub fn compute_merkle_proof(data_hashes: &Vec<Vec<u8>>, index: usize) -> (r: Vec<Vec<u8>>)
    requires
        index < data_hashes@.len(),
    ensures
        bytes_view(r@) == merkle_path(bytes_view(data_hashes@), index as nat),
{
    let mut path: Vec<Vec<u8>> = Vec::new();
    let mut level: Vec<Vec<u8>> = data_hashes.clone();
    proof {
        assert(bytes_view(level@) =~= bytes_view(data_hashes@));
    }
    let mut idx: usize = index;
    while level.len() > 1
        invariant
            idx < level@.len(),
            merkle_path(bytes_view(data_hashes@), index as nat) == bytes_view(path@)
                + merkle_path(bytes_view(level@), idx as nat),
        decreases level@.len(),
    {
        let sibling = if idx % 2 == 0 {
            if idx + 1 < level.len() {
                level[idx + 1].clone()
            } else {
                level[idx].clone()
            }
        } else {
            level[idx - 1].clone()
        };
        proof {
            let lv = bytes_view(level@);
            assert(sibling@ == merkle_path(lv, idx as nat)[0]);
            assert((seq![sibling@] + merkle_path(level_up(lv), (idx / 2) as nat)).drop_first()
                =~= merkle_path(level_up(lv), (idx / 2) as nat));
        }
        path.push(sibling);
        let next = level_up_exec(&level);
        proof {
            assert(bytes_view(path@) =~= bytes_view(path@.drop_last()).push(path@.last()@));
            assert(idx / 2 < (level@.len() + 1) / 2);
        }
        level = next;
        idx = idx / 2;
        proof {
            assert(bytes_view(path@) + merkle_path(bytes_view(level@), idx as nat)
                =~= merkle_path(bytes_view(data_hashes@), index as nat));
        }
    }
    proof {
        assert(merkle_path(bytes_view(level@), idx as nat) =~= Seq::<Seq<u8>>::empty());
        assert(bytes_view(path@) + Seq::<Seq<u8>>::empty() =~= bytes_view(path@));
    }
    path
}

/// The empty forest has the empty root.
pub proof fn lemma_merkle_root_empty()
    ensures
        merkle_root_of(Seq::<Seq<u8>>::empty()) == Seq::<u8>::empty(),
{
}

/// A single leaf is its own root.
pub proof fn lemma_merkle_root_single(h: Seq<u8>)
    ensures
        merkle_root_of(seq![h]) == h,
{
}

/// Two leaves hash pairwise into the root.
pub proof fn lemma_merkle_root_pair(h1: Seq<u8>, h2: Seq<u8>)
    ensures
        merkle_root_of(seq![h1, h2]) == sha256_of(h1 + h2),
{
    let leaves = seq![h1, h2];
    reveal_with_fuel(merkle_root_of, 3);
    assert(level_up(leaves) =~= seq![hash_pair(h1, h2)]);
}

/// With three leaves the odd leaf is duplicated at the first level.
pub proof fn lemma_merkle_root_triple(h1: Seq<u8>, h2: Seq<u8>, h3: Seq<u8>)
    ensures
        merkle_root_of(seq![h1, h2, h3]) == sha256_of(sha256_of(h1 + h2) + sha256_of(h3 + h3)),
{
    let leaves = seq![h1, h2, h3];
    reveal_with_fuel(merkle_root_of, 2);
    assert(level_up(leaves) =~= seq![hash_pair(h1, h2), hash_pair(h3, h3)]);
    lemma_merkle_root_pair(hash_pair(h1, h2), hash_pair(h3, h3));
}

/// The proof built for a leaf folds back into the root of its level:
/// `verify_merkle_proof` accepts what `compute_merkle_proof` built for
/// the leaf/root pair of `compute_merkle_root`.
pub proof fn lemma_generated_proof_verifies(level: Seq<Seq<u8>>, index: nat)
    requires
        index < level.len(),
    ensures
        merkle_fold(level[index as int], merkle_path(level, index), index) == merkle_root_of(
            level,
        ),
    decreases level.len(),
{
    if level.len() <= 1 {
        assert(merkle_path(level, index) == Seq::<Seq<u8>>::empty());
    } else {
        let up = level_up(level);
        let sib = if index % 2 == 0 {
            if index + 1 < level.len() {
                level[index + 1 as int]
            } else {
                level[index as int]
            }
        } else {
            level[index - 1]
        };
        let path = merkle_path(level, index);
        assert(path == seq![sib] + merkle_path(up, index / 2));
        assert(path[0] == sib);
        assert(path.drop_first() =~= merkle_path(up, index / 2));
        assert(index / 2 < up.len());
        let combined = if index % 2 == 0 {
            hash_pair(level[index as int], sib)
        } else {
            hash_pair(sib, level[index as int])
        };
        assert(up[(index / 2) as int] == combined) by {
            if index % 2 == 0 {
                assert(2 * ((index / 2) as int) == index);
            } else {
                assert(2 * ((index / 2) as int) == index - 1);
                assert(2 * ((index / 2) as int) + 1 == index);
            }
        }
        lemma_generated_proof_verifies(up, index / 2);
        assert(merkle_fold(level[index as int], path, index) == merkle_fold(
            combined,
            path.drop_first(),
            index / 2,
        ));
    }
}

/// A proof that folds into one root folds into no other: altering the
/// root makes verification reject.
pub proof fn lemma_altered_root_rejected(
    leaf: Seq<u8>,
    path: Seq<Seq<u8>>,
    index: nat,
    root: Seq<u8>,
    altered: Seq<u8>,
)
    requires
        merkle_fold(leaf, path, index) == root,
        altered != root,
    ensures
        merkle_fold(leaf, path, index) != altered,
{
}

} // verus!
