//! The replicated storage engine: a key-value store whose mutations
//! are routed through a private consensus engine, whose entries carry
//! integrity proofs, and whose corrupted entries can be recovered from
//! the majority of their replicas — as far as replicas, which hold
//! hashes rather than copies, allow.

use vstd::prelude::*;
use vstd::string::StringExecFns;

use crate::bytes::{bytes_eq, concat_bytes, u64_to_bytes};
use crate::consensus::{proposed_transition, BftConsensus, BftSignature};
use crate::errors::BftError;
use crate::hash::{sha256, sha256_of};
use crate::merkle::{bytes_view, merkle_fold, merkle_root_of, verify_merkle_proof};
use crate::node::{seq_contains_node, NodeId};
use crate::validate::str_eq;

verus! {

/// One stored association: its serialized value, the hash stamped at
/// the last write, the replica records, and version bookkeeping.
#[derive(Clone, Debug)]
pub struct BftStorageEntry {
    pub data: Vec<u8>,
    pub hash: Vec<u8>,
    pub replicas: Vec<BftReplica>,
    pub consensus_proof: Vec<u8>,
    pub created_at: u64,
    pub updated_at: u64,
    pub version: u64,
}

/// One replicating node's record of an entry: the hash it saw and its
/// signature over it.  Replicas hold hashes, not copies of the data.
#[derive(Clone, Debug)]
pub struct BftReplica {
    pub node_id: NodeId,
    pub data_hash: Vec<u8>,
    pub signature: Vec<u8>,
    pub timestamp: u64,
}

/// The integrity proof cached for an entry: its hash, a Merkle root
/// and path over it, and the consensus signatures that vouch for it.
#[derive(Clone, Debug)]
pub struct BftIntegrityProof {
    pub data_hash: Vec<u8>,
    pub merkle_root: Vec<u8>,
    pub merkle_proof: Vec<Vec<u8>>,
    pub consensus_signatures: Vec<BftSignature>,
    pub timestamp: u64,
}

/// Aggregate counters of the storage engine.
#[derive(Clone, Copy, Debug)]
pub struct BftStorageMetrics {
    pub total_entries: u64,
    pub replicated_entries: u64,
    pub integrity_failures: u64,
    pub consensus_operations: u64,
    pub byzantine_detections: u64,
    pub recovery_operations: u64,
}

/// The outcome of a full integrity sweep.
#[derive(Clone, Debug)]
pub struct BftIntegrityReport {
    pub total_checked: u64,
    pub integrity_passed: u64,
    pub integrity_failed: u64,
    pub corrupted_entries: Vec<String>,
    pub byzantine_nodes: Vec<NodeId>,
    pub recovery_needed: Vec<String>,
}

/// The storage engine of one collection.
#[derive(Debug)]
pub struct BftStorage {
    pub storage_id: String,
    pub entries: Vec<(String, BftStorageEntry)>,
    pub consensus: BftConsensus,
    pub replication_factor: u32,
    pub integrity_checks: Vec<(String, BftIntegrityProof)>,
    pub metrics: BftStorageMetrics,
}

/// Whether a replica record passes the signature check of the
/// stand-in scheme: a non-empty signature and a non-zero timestamp.
pub open spec fn replica_valid(r: BftReplica) -> bool {
    r.signature@.len() > 0 && r.timestamp > 0
}

/// Whether a consensus signature passes the same check.
pub open spec fn sig_valid(s: BftSignature) -> bool {
    s.signature@.len() > 0 && s.timestamp > 0
}

/// Whether a cached proof verifies: its Merkle path folds back into
/// its root (an empty path is vacuous), and every consensus signature
/// passes the signature check.
pub open spec fn proof_valid(p: BftIntegrityProof) -> bool {
    &&& p.merkle_proof@.len() > 0 ==> merkle_fold(p.data_hash@, bytes_view(p.merkle_proof@), 0)
        == p.merkle_root@
    &&& forall|i: int|
        0 <= i < p.consensus_signatures@.len() ==> sig_valid(#[trigger] p.consensus_signatures@[i])
}

/// Whether an entry's stored hash matches its data.
pub open spec fn entry_hash_ok(e: BftStorageEntry) -> bool {
    e.hash@ == sha256_of(e.data@)
}

/// Whether every replica of an entry passes the signature check.
pub open spec fn replicas_valid(e: BftStorageEntry) -> bool {
    forall|i: int| 0 <= i < e.replicas@.len() ==> replica_valid(#[trigger] e.replicas@[i])
}

/// Whether an association list holds `k`.
pub open spec fn has_key<V>(s: Seq<(String, V)>, k: Seq<char>) -> bool {
    exists|i: int| 0 <= i < s.len() && s[i].0@ == k
}

/// The index of `k` in an association list, when present.
pub open spec fn key_index<V>(s: Seq<(String, V)>, k: Seq<char>) -> int {
    choose|i: int| 0 <= i < s.len() && s[i].0@ == k
}

/// Whether no key occurs twice in an association list.
pub open spec fn keys_unique<V>(s: Seq<(String, V)>) -> bool {
    forall|i: int, j: int| 0 <= i < j < s.len() ==> s[i].0@ != s[j].0@
}

impl BftStorage {
    /// Whether the store holds an entry under `k`.
    pub open spec fn has_entry(&self, k: Seq<char>) -> bool {
        has_key(self.entries@, k)
    }

    /// The entry stored under `k`, when present.
    pub open spec fn entry_at(&self, k: Seq<char>) -> BftStorageEntry {
        self.entries@[key_index(self.entries@, k)].1
    }

    /// The integrity proof cached for `k`, if any.
    pub open spec fn proof_at(&self, k: Seq<char>) -> Option<BftIntegrityProof> {
        if has_key(self.integrity_checks@, k) {
            Some(self.integrity_checks@[key_index(self.integrity_checks@, k)].1)
        } else {
            None
        }
    }

    /// The integrity verdict for the entry under `k`: its hash
    /// matches its data, every replica passes the signature check,
    /// and the cached proof, if any, verifies.
    pub open spec fn intact(&self, k: Seq<char>) -> bool {
        &&& entry_hash_ok(self.entry_at(k))
        &&& replicas_valid(self.entry_at(k))
        &&& match self.proof_at(k) {
            Some(p) => proof_valid(p),
            None => true,
        }
    }

    /// Well-formedness: unique keys on both maps, a well-formed
    /// consensus engine, and the replica lists bounded by the
    /// replication factor.
    pub open spec fn wf(&self) -> bool {
        &&& keys_unique(self.entries@)
        &&& keys_unique(self.integrity_checks@)
        &&& self.consensus.wf()
        &&& forall|i: int|
            0 <= i < self.entries@.len() ==> (#[trigger] self.entries@[i]).1.replicas@.len()
                <= self.replication_factor
    }

    /// A fresh storage engine for one collection, owned by the node
    /// `self_id` and replicating to at most `replication_factor`
    /// nodes per entry.
    pub fn new(storage_id: String, replication_factor: u32, self_id: NodeId, now: u64) -> (r:
        BftStorage)
        ensures
            r.wf(),
            r.storage_id@ == storage_id@,
            r.entries@ == Seq::<(String, BftStorageEntry)>::empty(),
            r.integrity_checks@ == Seq::<(String, BftIntegrityProof)>::empty(),
            r.replication_factor == replication_factor,
            r.consensus.self_id == self_id,
            r.consensus.next_operation_id == 0,
            r.consensus.state.byzantine_nodes@ == Seq::<NodeId>::empty(),
            r.metrics.total_entries == 0,
            r.metrics.replicated_entries == 0,
            r.metrics.integrity_failures == 0,
            r.metrics.consensus_operations == 0,
            r.metrics.byzantine_detections == 0,
            r.metrics.recovery_operations == 0,
    {
        BftStorage {
            storage_id,
            entries: Vec::new(),
            consensus: BftConsensus::new(self_id, now),
            replication_factor,
            integrity_checks: Vec::new(),
            metrics: BftStorageMetrics {
                total_entries: 0,
                replicated_entries: 0,
                integrity_failures: 0,
                consensus_operations: 0,
                byzantine_detections: 0,
                recovery_operations: 0,
            },
        }
    }
}

/// Finds the index of `key` in an association list of entries.
fn find_entry_key(entries: &Vec<(String, BftStorageEntry)>, key: &str) -> (r: Option<usize>)
    ensures
        match r {
            Option::Some(j) => j < entries@.len() && entries@[j as int].0@ == key@,
            Option::None => !has_key(entries@, key@),
        },
{
    let mut i: usize = 0;
    while i < entries.len()
        invariant
            0 <= i <= entries@.len(),
            forall|k: int| 0 <= k < i ==> entries@[k].0@ != key@,
        decreases entries@.len() - i,
    {
        if str_eq(entries[i].0.as_str(), key) {
            return Some(i);
        }
        i += 1;
    }
    None
}

/// Finds the index of `key` in an association list of proofs.
fn find_proof_key(proofs: &Vec<(String, BftIntegrityProof)>, key: &str) -> (r: Option<usize>)
    ensures
        match r {
            Option::Some(j) => j < proofs@.len() && proofs@[j as int].0@ == key@,
            Option::None => !has_key(proofs@, key@),
        },
{
    let mut i: usize = 0;
    while i < proofs.len()
        invariant
            0 <= i <= proofs@.len(),
            forall|k: int| 0 <= k < i ==> proofs@[k].0@ != key@,
        decreases proofs@.len() - i,
    {
        if str_eq(proofs[i].0.as_str(), key) {
            return Some(i);
        }
        i += 1;
    }
    None
}

/// With unique keys, a found index is the `key_index`.
pub proof fn lemma_found_is_key_index<V>(s: Seq<(String, V)>, k: Seq<char>, j: int)
    requires
        keys_unique(s),
        0 <= j < s.len(),
        s[j].0@ == k,
    ensures
        has_key(s, k),
        key_index(s, k) == j,
{
    assert(has_key(s, k));
    let i0 = key_index(s, k);
    assert(0 <= i0 < s.len() && s[i0].0@ == k);
    if i0 < j {
        assert(s[i0].0@ != s[j].0@);
    } else if j < i0 {
        assert(s[j].0@ != s[i0].0@);
    }
}

/// Checks one proof against the stand-in scheme.
fn proof_ok(p: &BftIntegrityProof) -> (r: bool)
    ensures
        r == proof_valid(*p),
{
    if p.merkle_proof.len() > 0 {
        if !verify_merkle_proof(p.data_hash.as_slice(), &p.merkle_proof, p.merkle_root.as_slice(), 0)
        {
            return false;
        }
    }
    let mut i: usize = 0;
    while i < p.consensus_signatures.len()
        invariant
            0 <= i <= p.consensus_signatures@.len(),
            p.merkle_proof@.len() > 0 ==> merkle_fold(
                p.data_hash@,
                bytes_view(p.merkle_proof@),
                0,
            ) == p.merkle_root@,
            forall|k: int| 0 <= k < i ==> sig_valid(#[trigger] p.consensus_signatures@[k]),
        decreases p.consensus_signatures@.len() - i,
    {
        let s = &p.consensus_signatures[i];
        if s.signature.len() == 0 || s.timestamp == 0 {
            return false;
        }
        i += 1;
    }
    true
}

/// Checks one entry, with an optionally cached proof: hash,
/// replicas, proof.
fn entry_ok(entry: &BftStorageEntry, proofs: &Vec<(String, BftIntegrityProof)>, key: &str) -> (r:
    bool)
    requires
        keys_unique(proofs@),
    ensures
        r == ({
            &&& entry_hash_ok(*entry)
            &&& replicas_valid(*entry)
            &&& (has_key(proofs@, key@) ==> proof_valid(
                proofs@[key_index(proofs@, key@)].1,
            ))
        }),
{
    let computed = sha256(entry.data.as_slice());
    if !bytes_eq(&computed, &entry.hash) {
        return false;
    }
    let mut i: usize = 0;
    while i < entry.replicas.len()
        invariant
            entry_hash_ok(*entry),
            0 <= i <= entry.replicas@.len(),
            forall|k: int| 0 <= k < i ==> replica_valid(#[trigger] entry.replicas@[k]),
        decreases entry.replicas@.len() - i,
    {
        let rep = &entry.replicas[i];
        if rep.signature.len() == 0 || rep.timestamp == 0 {
            return false;
        }
        i += 1;
    }
    match find_proof_key(proofs, key) {
        Some(j) => {
            proof {
                lemma_found_is_key_index(proofs@, key@, j as int);
            }
            proof_ok(&proofs[j].1)
        },
        None => true,
    }
}

/// The bytes a node signs when replicating: its own identifier
/// followed by the hash it vouches for.
pub open spec fn data_sign_preimage(signer: NodeId, data: Seq<u8>) -> Seq<u8> {
    crate::bytes::u64_be_bytes(signer.id) + data
}

/// Signs bytes on behalf of a node: a hash-based stand-in for a
/// real signature.
fn sign_data(signer: NodeId, data: &[u8]) -> (r: Vec<u8>)
    ensures
        r@ == sha256_of(data_sign_preimage(signer, data@)),
        r@.len() == 32,
{
    let me = u64_to_bytes(signer.id);
    let pre = concat_bytes(me.as_slice(), data);
    sha256(pre.as_slice())
}

/// What a replica record written by `signer` over `hash` at `now`
/// looks like.
pub open spec fn fresh_replica(rep: BftReplica, signer: NodeId, hash: Seq<u8>, now: u64) -> bool {
    &&& rep.node_id == signer
    &&& rep.data_hash@ == hash
    &&& rep.signature@ == sha256_of(data_sign_preimage(signer, hash))
    &&& rep.timestamp == now
}

/// What a freshly built integrity proof looks like: the entry hash as
/// its own one-leaf Merkle root, an empty path, and one consensus
/// signature by the local node.
pub open spec fn fresh_proof(p: BftIntegrityProof, signer: NodeId, hash: Seq<u8>, now: u64) -> bool {
    &&& p.data_hash@ == hash
    &&& p.merkle_root@ == merkle_root_of(seq![hash])
    &&& p.merkle_proof@.len() == 0
    &&& p.consensus_signatures@.len() == 1
    &&& p.consensus_signatures@[0].signer == signer
    &&& p.consensus_signatures@[0].signature@ == sha256_of(data_sign_preimage(signer, hash))
    &&& p.consensus_signatures@[0].timestamp == now
    &&& p.timestamp == now
}

/// What a freshly stored entry looks like: version one, stamped
/// `now`, hashed over its data, and replicated once when the
/// replication factor allows a replica at all.
pub open spec fn stored_entry(
    e: BftStorageEntry,
    data: Seq<u8>,
    signer: NodeId,
    now: u64,
    factor: u32,
) -> bool {
    &&& e.data@ == data
    &&& e.hash@ == sha256_of(data)
    &&& e.version == 1
    &&& e.created_at == now
    &&& e.updated_at == now
    &&& e.consensus_proof@ == Seq::<u8>::empty()
    &&& e.replicas@.len() == if factor > 0 {
        1int
    } else {
        0int
    }
    &&& factor > 0 ==> fresh_replica(e.replicas@[0], signer, sha256_of(data), now)
}

/// What an updated entry looks like: new data and hash, the version
/// bumped, the creation stamp kept, and one more replica when the
/// factor leaves room.
pub open spec fn updated_entry(
    e0: BftStorageEntry,
    e: BftStorageEntry,
    data: Seq<u8>,
    signer: NodeId,
    now: u64,
    factor: u32,
) -> bool {
    &&& e.data@ == data
    &&& e.hash@ == sha256_of(data)
    &&& e.version == e0.version + 1
    &&& e.created_at == e0.created_at
    &&& e.updated_at == now
    &&& e.consensus_proof@ == e0.consensus_proof@
    &&& if e0.replicas@.len() < factor {
        &&& e.replicas@.len() == e0.replicas@.len() + 1
        &&& e.replicas@.drop_last() == e0.replicas@
        &&& fresh_replica(e.replicas@.last(), signer, sha256_of(data), now)
    } else {
        e.replicas@ == e0.replicas@
    }
}

/// An association list after an upsert of `k`: replaced in place when
/// the key was present, appended when it was not.
pub open spec fn upserted<V>(pre: Seq<(String, V)>, post: Seq<(String, V)>, k: Seq<char>) -> bool {
    if has_key(pre, k) {
        &&& post.len() == pre.len()
        &&& forall|i: int| 0 <= i < pre.len() && i != key_index(pre, k) ==> post[i] == pre[i]
        &&& post[key_index(pre, k)].0@ == k
    } else {
        &&& post.len() == pre.len() + 1
        &&& post.drop_last() == pre
        &&& post.last().0@ == k
    }
}

/// The value an upsert left under `k`.
pub open spec fn upserted_value<V>(pre: Seq<(String, V)>, post: Seq<(String, V)>, k: Seq<char>) -> V {
    if has_key(pre, k) {
        post[key_index(pre, k)].1
    } else {
        post.last().1
    }
}

/// Upserting keeps keys unique, and the new value is found under `k`.
pub proof fn lemma_upsert_props<V>(pre: Seq<(String, V)>, post: Seq<(String, V)>, k: Seq<char>)
    requires
        keys_unique(pre),
        upserted(pre, post, k),
    ensures
        keys_unique(post),
        has_key(post, k),
        post[key_index(post, k)].1 == upserted_value(pre, post, k),
{
    if has_key(pre, k) {
        let j = key_index(pre, k);
        assert(0 <= j < pre.len() && pre[j].0@ == k);
        assert(post[j].0@ == k);
        assert forall|i: int, j2: int| 0 <= i < j2 < post.len() implies post[i].0@ != post[j2].0@
        by {
            if i != j && j2 != j {
                assert(post[i] == pre[i] && post[j2] == pre[j2]);
            } else if i == j {
                assert(post[j2] == pre[j2]);
                assert(pre[j].0@ == k);
            } else {
                assert(post[i] == pre[i]);
                assert(pre[j].0@ == k);
            }
        }
        lemma_found_is_key_index(post, k, j);
    } else {
        let j = pre.len() as int;
        assert(post[j].0@ == k);
        assert forall|i: int, j2: int| 0 <= i < j2 < post.len() implies post[i].0@ != post[j2].0@
        by {
            if j2 < j {
                assert(post[i] == pre[i] && post[j2] == pre[j2]);
            } else {
                assert(post[i] == pre[i]);
                assert(!has_key(pre, k));
                assert(pre[i].0@ != k);
            }
        }
        lemma_found_is_key_index(post, k, j);
    }
}

/// An upsert of `k` leaves every other key, and its value, alone.
pub proof fn lemma_upsert_others<V>(pre: Seq<(String, V)>, post: Seq<(String, V)>, k: Seq<char>)
    requires
        keys_unique(pre),
        upserted(pre, post, k),
    ensures
        forall|k2: Seq<char>| k2 != k ==> #[trigger] has_key(post, k2) == has_key(pre, k2),
        forall|k2: Seq<char>|
            k2 != k && has_key(pre, k2) ==> #[trigger] post[key_index(post, k2)].1
                == pre[key_index(pre, k2)].1,
{
    lemma_upsert_props(pre, post, k);
    let j = if has_key(pre, k) {
        key_index(pre, k)
    } else {
        pre.len() as int
    };
    assert(post[j].0@ == k);
    assert forall|k2: Seq<char>| k2 != k implies #[trigger] has_key(post, k2) == has_key(
        pre,
        k2,
    ) by {
        if has_key(post, k2) {
            let i = choose|i: int| 0 <= i < post.len() && post[i].0@ == k2;
            assert(i != j);
            assert(post[i] == pre[i]);
        }
        if has_key(pre, k2) {
            let i = choose|i: int| 0 <= i < pre.len() && pre[i].0@ == k2;
            if has_key(pre, k) {
                assert(i != j);
                assert(post[i] == pre[i]);
            } else {
                assert(post[i] == pre[i]);
            }
        }
    }
    assert forall|k2: Seq<char>| k2 != k && has_key(pre, k2) implies #[trigger] post[key_index(
        post,
        k2,
    )].1 == pre[key_index(pre, k2)].1 by {
        let i = key_index(pre, k2);
        assert(0 <= i < pre.len() && pre[i].0@ == k2);
        assert(i != j);
        assert(post[i] == pre[i]);
        lemma_found_is_key_index(post, k2, i);
    }
}

/// Replaces or appends the association for `k` in an entry list.
fn upsert_entry(entries: &mut Vec<(String, BftStorageEntry)>, key: String, entry: BftStorageEntry)
    requires
        keys_unique(old(entries)@),
    ensures
        keys_unique(final(entries)@),
        upserted(old(entries)@, final(entries)@, key@),
        upserted_value(old(entries)@, final(entries)@, key@) == entry,
        has_key(final(entries)@, key@),
        final(entries)@[key_index(final(entries)@, key@)].1 == entry,
{
    let found = find_entry_key(entries, key.as_str());
    match found {
        Some(j) => {
            proof {
                lemma_found_is_key_index(entries@, key@, j as int);
            }
            let _ = entries.remove(j);
            entries.insert(j, (key, entry));
            proof {
                assert(entries@ =~= old(entries)@.update(j as int, entries@[j as int]));
                lemma_upsert_props(old(entries)@, entries@, key@);
            }
        },
        None => {
            entries.push((key, entry));
            proof {
                assert(entries@.drop_last() =~= old(entries)@);
                lemma_upsert_props(old(entries)@, entries@, key@);
            }
        },
    }
}

/// Replaces or appends the association for `k` in a proof list.
fn upsert_proof(proofs: &mut Vec<(String, BftIntegrityProof)>, key: String, p: BftIntegrityProof)
    requires
        keys_unique(old(proofs)@),
    ensures
        keys_unique(final(proofs)@),
        upserted(old(proofs)@, final(proofs)@, key@),
        upserted_value(old(proofs)@, final(proofs)@, key@) == p,
        has_key(final(proofs)@, key@),
        final(proofs)@[key_index(final(proofs)@, key@)].1 == p,
{
    let found = find_proof_key(proofs, key.as_str());
    match found {
        Some(j) => {
            proof {
                lemma_found_is_key_index(proofs@, key@, j as int);
            }
            let _ = proofs.remove(j);
            proofs.insert(j, (key, p));
            proof {
                assert(proofs@ =~= old(proofs)@.update(j as int, proofs@[j as int]));
                lemma_upsert_props(old(proofs)@, proofs@, key@);
            }
        },
        None => {
            proofs.push((key, p));
            proof {
                assert(proofs@.drop_last() =~= old(proofs)@);
                lemma_upsert_props(old(proofs)@, proofs@, key@);
            }
        },
    }
}

/// The successful store transition: the consensus engine records the
/// proposal, the entry is written fresh under the key, its proof is
/// cached, the entry is intact, and the counters advance.
pub open spec fn store_transition(
    pre: BftStorage,
    post: BftStorage,
    key: Seq<char>,
    data: Seq<u8>,
    initiator: NodeId,
    now: u64,
) -> bool {
    &&& proposed_transition(
        pre.consensus,
        post.consensus,
        "store_"@ + pre.storage_id@,
        initiator,
        data,
        now,
    )
    &&& upserted(pre.entries@, post.entries@, key)
    &&& stored_entry(
        upserted_value(pre.entries@, post.entries@, key),
        data,
        pre.consensus.self_id,
        now,
        pre.replication_factor,
    )
    &&& upserted(pre.integrity_checks@, post.integrity_checks@, key)
    &&& fresh_proof(
        upserted_value(pre.integrity_checks@, post.integrity_checks@, key),
        pre.consensus.self_id,
        sha256_of(data),
        now,
    )
    &&& post.has_entry(key)
    &&& post.intact(key)
    &&& post.entry_at(key).data@ == data
    &&& post.metrics.total_entries == pre.metrics.total_entries + 1
    &&& post.metrics.consensus_operations == pre.metrics.consensus_operations + 1
    &&& post.metrics.replicated_entries == pre.metrics.replicated_entries + 1
    &&& post.metrics.integrity_failures == pre.metrics.integrity_failures
    &&& post.metrics.byzantine_detections == pre.metrics.byzantine_detections
    &&& post.metrics.recovery_operations == pre.metrics.recovery_operations
    &&& post.storage_id@ == pre.storage_id@
    &&& post.replication_factor == pre.replication_factor
}

/// What retrieval of `k` returns, as a function of the store's
/// state: the stored bytes when the key is present and intact, and
/// the matching error otherwise.
pub open spec fn retrieve_outcome(s: BftStorage, k: Seq<char>) -> Result<Seq<u8>, BftError> {
    if !s.has_entry(k) {
        Result::Err(BftError::NotFound)
    } else if !s.intact(k) {
        Result::Err(BftError::IntegrityFailure)
    } else {
        Result::Ok(s.entry_at(k).data@)
    }
}

/// A store followed immediately by a retrieval of the same key
/// returns the stored value unchanged, and never an integrity
/// failure: the store leaves the key intact with exactly that value.
pub proof fn lemma_store_then_retrieve(
    pre: BftStorage,
    post: BftStorage,
    key: Seq<char>,
    data: Seq<u8>,
    initiator: NodeId,
    now: u64,
)
    requires
        store_transition(pre, post, key, data, initiator, now),
    ensures
        retrieve_outcome(post, key) == Result::<Seq<u8>, BftError>::Ok(data),
{
}

impl BftStorage {
    /// Retrieves the value stored under `key`, verifying its
    /// integrity first: absent keys fail with `NotFound`, and a hash,
    /// replica-signature or proof mismatch fails with
    /// `IntegrityFailure`.
    pub fn bft_retrieve(&self, key: &str) -> (r: Result<Vec<u8>, BftError>)
        requires
            self.wf(),
        ensures
            !self.has_entry(key@) ==> r == Result::<Vec<u8>, BftError>::Err(BftError::NotFound),
            self.has_entry(key@) && !self.intact(key@) ==> r == Result::<Vec<u8>, BftError>::Err(
                BftError::IntegrityFailure,
            ),
            self.has_entry(key@) && self.intact(key@) ==> (r matches Ok(d) && d@ == self.entry_at(
                key@,
            ).data@),
            match retrieve_outcome(*self, key@) {
                Result::Ok(d) => r matches Ok(v) && v@ == d,
                Result::Err(e) => r == Result::<Vec<u8>, BftError>::Err(e),
            },
    {
        let j = match find_entry_key(&self.entries, key) {
            Some(j) => j,
            None => {
                return Err(BftError::NotFound);
            },
        };
        proof {
            lemma_found_is_key_index(self.entries@, key@, j as int);
        }
        let entry = &self.entries[j].1;
        if !entry_ok(entry, &self.integrity_checks, key) {
            return Err(BftError::IntegrityFailure);
        }
        Ok(entry.data.clone())
    }

    /// Builds the integrity proof for an entry hash: the hash as its
    /// own one-leaf Merkle root and one consensus signature by the
    /// local node.
    fn build_proof(&self, hash: &Vec<u8>, now: u64) -> (p: BftIntegrityProof)
        ensures
            fresh_proof(p, self.consensus.self_id, hash@, now),
            p.consensus_signatures@[0].signature@.len() == 32,
    {
        let signature = sign_data(self.consensus.self_id, hash.as_slice());
        let mut leaves: Vec<Vec<u8>> = Vec::new();
        leaves.push(hash.clone());
        let merkle_root = crate::merkle::compute_merkle_root(&leaves);
        proof {
            assert(bytes_view(leaves@) =~= seq![hash@]);
        }
        let mut consensus_signatures: Vec<BftSignature> = Vec::new();
        consensus_signatures.push(
            BftSignature { signer: self.consensus.self_id, signature, timestamp: now },
        );
        BftIntegrityProof {
            data_hash: hash.clone(),
            merkle_root,
            merkle_proof: Vec::new(),
            consensus_signatures,
            timestamp: now,
        }
    }

    /// Stores `data` under `key` through consensus: the operation is
    /// proposed to the private engine, the entry is written at
    /// version one, replicated, and stamped with a fresh integrity
    /// proof.  A flagged initiator is rejected and nothing changes.
    pub fn bft_store(&mut self, key: String, data: Vec<u8>, initiator: NodeId, now: u64) -> (r:
        Result<u64, BftError>)
        requires
            old(self).wf(),
            now > 0,
            old(self).consensus.next_operation_id < u64::MAX,
            old(self).metrics.total_entries < u64::MAX,
            old(self).metrics.consensus_operations < u64::MAX,
            old(self).metrics.replicated_entries < u64::MAX,
        ensures
            final(self).wf(),
            seq_contains_node(old(self).consensus.state.byzantine_nodes@, initiator) ==> r
                == Result::<u64, BftError>::Err(BftError::ByzantineRejection) && *final(self)
                == *old(self),
            !seq_contains_node(old(self).consensus.state.byzantine_nodes@, initiator) ==> r
                == Result::<u64, BftError>::Ok(old(self).consensus.next_operation_id)
                && store_transition(*old(self), *final(self), key@, data@, initiator, now),
            final(self).storage_id@ == old(self).storage_id@,
            final(self).replication_factor == old(self).replication_factor,
    {
        if self.consensus.state.is_byzantine_node(&initiator) {
            return Err(BftError::ByzantineRejection);
        }
        let hash = sha256(data.as_slice());
        let op_type = String::from_str("store_").concat(self.storage_id.as_str());
        let operation_id = match self.consensus.propose_operation(
            op_type,
            initiator,
            data.clone(),
            now,
        ) {
            Ok(id) => id,
            Err(e) => {
                proof {
                    assert(false);
                }
                return Err(e);
            },
        };
        let mut replicas: Vec<BftReplica> = Vec::new();
        if self.replication_factor > 0 {
            let signature = sign_data(self.consensus.self_id, hash.as_slice());
            replicas.push(
                BftReplica {
                    node_id: self.consensus.self_id,
                    data_hash: hash.clone(),
                    signature,
                    timestamp: now,
                },
            );
        }
        let entry = BftStorageEntry {
            data,
            hash: hash.clone(),
            replicas,
            consensus_proof: Vec::new(),
            created_at: now,
            updated_at: now,
            version: 1,
        };
        let p = self.build_proof(&hash, now);
        let ghost entries_pre = self.entries@;
        upsert_entry(&mut self.entries, key.clone(), entry);
        let ghost proofs_pre = self.integrity_checks@;
        upsert_proof(&mut self.integrity_checks, key, p);
        self.metrics.total_entries = self.metrics.total_entries + 1;
        self.metrics.consensus_operations = self.metrics.consensus_operations + 1;
        self.metrics.replicated_entries = self.metrics.replicated_entries + 1;
        proof {
            lemma_upsert_props(entries_pre, self.entries@, key@);
            lemma_upsert_props(proofs_pre, self.integrity_checks@, key@);
            let ghost newidx = if has_key(entries_pre, key@) {
                key_index(entries_pre, key@)
            } else {
                entries_pre.len() as int
            };
            assert forall|i: int|
                0 <= i < self.entries@.len() implies (
            #[trigger] self.entries@[i]).1.replicas@.len() <= self.replication_factor by {
                if i != newidx {
                    assert(self.entries@[i] == entries_pre[i]);
                } else {
                    assert(self.entries@[i].1 == upserted_value(entries_pre, self.entries@, key@));
                }
            }
        }
        Ok(operation_id)
    }

    /// Updates the entry under `key` through consensus: the new data
    /// replaces the old, the hash is recomputed, the version bumped,
    /// the entry re-replicated and its proof refreshed.  A missing
    /// key fails with `NotFound`; a flagged initiator is rejected.
    pub fn bft_update(&mut self, key: String, data: Vec<u8>, initiator: NodeId, now: u64) -> (r:
        Result<u64, BftError>)
        requires
            old(self).wf(),
            now > 0,
            old(self).consensus.next_operation_id < u64::MAX,
            old(self).metrics.consensus_operations < u64::MAX,
            old(self).metrics.replicated_entries < u64::MAX,
            old(self).has_entry(key@) ==> old(self).entry_at(key@).version < u64::MAX,
        ensures
            final(self).wf(),
            !old(self).has_entry(key@) ==> r == Result::<u64, BftError>::Err(BftError::NotFound)
                && *final(self) == *old(self),
            old(self).has_entry(key@) && seq_contains_node(
                old(self).consensus.state.byzantine_nodes@,
                initiator,
            ) ==> r == Result::<u64, BftError>::Err(BftError::ByzantineRejection) && *final(self)
                == *old(self),
            old(self).has_entry(key@) && !seq_contains_node(
                old(self).consensus.state.byzantine_nodes@,
                initiator,
            ) ==> {
                &&& r == Result::<u64, BftError>::Ok(old(self).consensus.next_operation_id)
                &&& proposed_transition(
                    old(self).consensus,
                    final(self).consensus,
                    "update_"@ + old(self).storage_id@,
                    initiator,
                    data@,
                    now,
                )
                &&& upserted(old(self).entries@, final(self).entries@, key@)
                &&& updated_entry(
                    old(self).entry_at(key@),
                    upserted_value(old(self).entries@, final(self).entries@, key@),
                    data@,
                    old(self).consensus.self_id,
                    now,
                    old(self).replication_factor,
                )
                &&& upserted(old(self).integrity_checks@, final(self).integrity_checks@, key@)
                &&& fresh_proof(
                    upserted_value(
                        old(self).integrity_checks@,
                        final(self).integrity_checks@,
                        key@,
                    ),
                    old(self).consensus.self_id,
                    sha256_of(data@),
                    now,
                )
                &&& final(self).has_entry(key@)
                &&& final(self).entry_at(key@).data@ == data@
                &&& final(self).metrics.consensus_operations == old(
                    self,
                ).metrics.consensus_operations + 1
                &&& final(self).metrics.replicated_entries == old(
                    self,
                ).metrics.replicated_entries + (
                if old(self).entry_at(key@).replicas@.len() < old(self).replication_factor {
                    1int
                } else {
                    0int
                })
                &&& final(self).metrics.total_entries == old(self).metrics.total_entries
                &&& final(self).metrics.integrity_failures == old(self).metrics.integrity_failures
                &&& final(self).metrics.byzantine_detections == old(
                    self,
                ).metrics.byzantine_detections
                &&& final(self).metrics.recovery_operations == old(
                    self,
                ).metrics.recovery_operations
            },
            final(self).storage_id@ == old(self).storage_id@,
            final(self).replication_factor == old(self).replication_factor,
    {
        let j = match find_entry_key(&self.entries, key.as_str()) {
            Some(j) => j,
            None => {
                return Err(BftError::NotFound);
            },
        };
        proof {
            lemma_found_is_key_index(self.entries@, key@, j as int);
        }
        if self.consensus.state.is_byzantine_node(&initiator) {
            return Err(BftError::ByzantineRejection);
        }
        let hash = sha256(data.as_slice());
        let op_type = String::from_str("update_").concat(self.storage_id.as_str());
        let operation_id = match self.consensus.propose_operation(
            op_type,
            initiator,
            data.clone(),
            now,
        ) {
            Ok(id) => id,
            Err(e) => {
                proof {
                    assert(false);
                }
                return Err(e);
            },
        };
        let ghost entries_pre0 = self.entries@;
        let pair = self.entries.remove(j);
        let key_string = pair.0;
        let mut entry = pair.1;
        let ghost entry0 = entries_pre0[j as int].1;
        entry.data = data;
        entry.hash = hash.clone();
        entry.updated_at = now;
        entry.version = entry.version + 1;
        let mut appended_replica = false;
        if (entry.replicas.len() as u64) < (self.replication_factor as u64) {
            let signature = sign_data(self.consensus.self_id, hash.as_slice());
            let ghost reps0 = entry.replicas@;
            entry.replicas.push(
                BftReplica {
                    node_id: self.consensus.self_id,
                    data_hash: hash.clone(),
                    signature,
                    timestamp: now,
                },
            );
            proof {
                assert(entry.replicas@.drop_last() =~= reps0);
            }
            appended_replica = true;
        }
        let p = self.build_proof(&hash, now);
        self.entries.insert(j, (key_string, entry));
        proof {
            assert(self.entries@ =~= entries_pre0.update(j as int, self.entries@[j as int]));
            assert(upserted(entries_pre0, self.entries@, key@));
            lemma_upsert_props(entries_pre0, self.entries@, key@);
        }
        let ghost proofs_pre = self.integrity_checks@;
        upsert_proof(&mut self.integrity_checks, key, p);
        self.metrics.consensus_operations = self.metrics.consensus_operations + 1;
        if appended_replica {
            self.metrics.replicated_entries = self.metrics.replicated_entries + 1;
        }
        proof {
            lemma_upsert_props(proofs_pre, self.integrity_checks@, key@);
            assert forall|i: int|
                0 <= i < self.entries@.len() implies (
            #[trigger] self.entries@[i]).1.replicas@.len() <= self.replication_factor by {
                if i != j as int {
                    assert(self.entries@[i] == entries_pre0[i]);
                }
            }
        }
        Ok(operation_id)
    }

    /// Deletes the entry under `key` through consensus, removing it
    /// and its proof.  A missing key fails with `NotFound`; a flagged
    /// initiator is rejected.
    pub fn bft_delete(&mut self, key: String, initiator: NodeId, now: u64) -> (r: Result<
        u64,
        BftError,
    >)
        requires
            old(self).wf(),
            old(self).consensus.next_operation_id < u64::MAX,
            old(self).metrics.consensus_operations < u64::MAX,
        ensures
            final(self).wf(),
            !old(self).has_entry(key@) ==> r == Result::<u64, BftError>::Err(BftError::NotFound)
                && *final(self) == *old(self),
            old(self).has_entry(key@) && seq_contains_node(
                old(self).consensus.state.byzantine_nodes@,
                initiator,
            ) ==> r == Result::<u64, BftError>::Err(BftError::ByzantineRejection) && *final(self)
                == *old(self),
            old(self).has_entry(key@) && !seq_contains_node(
                old(self).consensus.state.byzantine_nodes@,
                initiator,
            ) ==> {
                &&& r == Result::<u64, BftError>::Ok(old(self).consensus.next_operation_id)
                &&& proposed_transition(
                    old(self).consensus,
                    final(self).consensus,
                    "delete_"@ + old(self).storage_id@,
                    initiator,
                    key@.map_values(|c: char| c as u8),
                    now,
                )
                &&& final(self).entries@ == old(self).entries@.remove(
                    key_index(old(self).entries@, key@),
                )
                &&& !final(self).has_entry(key@)
                &&& final(self).integrity_checks@ == (if has_key(
                    old(self).integrity_checks@,
                    key@,
                ) {
                    old(self).integrity_checks@.remove(
                        key_index(old(self).integrity_checks@, key@),
                    )
                } else {
                    old(self).integrity_checks@
                })
                &&& final(self).metrics.consensus_operations == old(
                    self,
                ).metrics.consensus_operations + 1
                &&& final(self).metrics.total_entries as int == (
                if old(self).metrics.total_entries > 0 {
                    old(self).metrics.total_entries - 1
                } else {
                    0int
                })
                &&& final(self).metrics.replicated_entries == old(self).metrics.replicated_entries
                &&& final(self).metrics.integrity_failures == old(self).metrics.integrity_failures
                &&& final(self).metrics.byzantine_detections == old(
                    self,
                ).metrics.byzantine_detections
                &&& final(self).metrics.recovery_operations == old(
                    self,
                ).metrics.recovery_operations
            },
            final(self).storage_id@ == old(self).storage_id@,
            final(self).replication_factor == old(self).replication_factor,
    {
        let j = match find_entry_key(&self.entries, key.as_str()) {
            Some(j) => j,
            None => {
                return Err(BftError::NotFound);
            },
        };
        proof {
            lemma_found_is_key_index(self.entries@, key@, j as int);
        }
        if self.consensus.state.is_byzantine_node(&initiator) {
            return Err(BftError::ByzantineRejection);
        }
        let mut key_bytes: Vec<u8> = Vec::new();
        let key_len = key.as_str().unicode_len();
        let mut ci: usize = 0;
        while ci < key_len
            invariant
                key_len == key@.len(),
                0 <= ci <= key_len,
                key_bytes@ == key@.take(ci as int).map_values(|c: char| c as u8),
            decreases key_len - ci,
        {
            key_bytes.push(key.as_str().get_char(ci) as u8);
            proof {
                assert(key_bytes@ =~= key@.take(ci + 1).map_values(|c: char| c as u8));
            }
            ci += 1;
        }
        proof {
            assert(key@.take(key@.len() as int) == key@);
        }
        let op_type = String::from_str("delete_").concat(self.storage_id.as_str());
        let operation_id = match self.consensus.propose_operation(
            op_type,
            initiator,
            key_bytes,
            now,
        ) {
            Ok(id) => id,
            Err(e) => {
                proof {
                    assert(false);
                }
                return Err(e);
            },
        };
        let ghost entries_pre = self.entries@;
        let _ = self.entries.remove(j);
        proof {
            assert forall|a: int, b: int|
                0 <= a < b < self.entries@.len() implies self.entries@[a].0@
                != self.entries@[b].0@ by {
                if a < j && b < j {
                } else if a < j {
                    assert(self.entries@[b] == entries_pre[b + 1]);
                } else {
                    assert(self.entries@[a] == entries_pre[a + 1]);
                    assert(self.entries@[b] == entries_pre[b + 1]);
                }
            }
            assert forall|i: int| 0 <= i < self.entries@.len() implies self.entries@[i].0@
                != key@ by {
                if i < j {
                    assert(self.entries@[i] == entries_pre[i]);
                } else {
                    assert(self.entries@[i] == entries_pre[i + 1]);
                }
            }
        }
        match find_proof_key(&self.integrity_checks, key.as_str()) {
            Some(pj) => {
                proof {
                    lemma_found_is_key_index(self.integrity_checks@, key@, pj as int);
                }
                let ghost proofs_pre = self.integrity_checks@;
                let _ = self.integrity_checks.remove(pj);
                proof {
                    assert forall|a: int, b: int|
                        0 <= a < b < self.integrity_checks@.len() implies self.integrity_checks@[a].0@
                        != self.integrity_checks@[b].0@ by {
                        if a < pj && b < pj {
                        } else if a < pj {
                            assert(self.integrity_checks@[b] == proofs_pre[b + 1]);
                        } else {
                            assert(self.integrity_checks@[a] == proofs_pre[a + 1]);
                            assert(self.integrity_checks@[b] == proofs_pre[b + 1]);
                        }
                    }
                }
            },
            None => {},
        }
        self.metrics.consensus_operations = self.metrics.consensus_operations + 1;
        if self.metrics.total_entries > 0 {
            self.metrics.total_entries = self.metrics.total_entries - 1;
        }
        Ok(operation_id)
    }
}

/// Saturating addition on counters.
pub open spec fn sat_add(a: u64, b: int) -> int {
    if a + b > u64::MAX {
        u64::MAX as int
    } else {
        a + b
    }
}

/// The number of replicas in `reps` that vouch for the hash `h`.
pub open spec fn hash_count(reps: Seq<BftReplica>, h: Seq<u8>) -> int
    decreases reps.len(),
{
    if reps.len() == 0 {
        0
    } else {
        hash_count(reps.drop_last(), h) + if reps.last().data_hash@ == h {
            1int
        } else {
            0int
        }
    }
}

/// The largest per-hash tally among the first `n` replicas.
pub open spec fn max_count_upto(reps: Seq<BftReplica>, n: int) -> int
    decreases n,
{
    if n <= 0 {
        0
    } else {
        let m = max_count_upto(reps, n - 1);
        let c = hash_count(reps, reps[n - 1].data_hash@);
        if c > m {
            c
        } else {
            m
        }
    }
}

/// Whether the replica at `i` vouches for a hash held by fewer
/// replicas than some other hash of the same entry: the minority
/// side of a split.
pub open spec fn minority_replica(reps: Seq<BftReplica>, i: int) -> bool {
    hash_count(reps, reps[i].data_hash@) < max_count_upto(reps, reps.len() as int)
}

/// The accumulator fold of one entry's replicas: each minority
/// replica's node joins the list once.
pub open spec fn byz_accum_reps(acc: Seq<NodeId>, reps: Seq<BftReplica>, m: int) -> Seq<NodeId>
    decreases m,
{
    if m <= 0 {
        acc
    } else {
        let a = byz_accum_reps(acc, reps, m - 1);
        if minority_replica(reps, m - 1) && !seq_contains_node(a, reps[m - 1].node_id) {
            a.push(reps[m - 1].node_id)
        } else {
            a
        }
    }
}

/// The nodes reported Byzantine by a sweep of the first `n` entries:
/// for every entry, every node whose replica hash is not among the
/// most frequent for that entry, deduplicated, in scan order.
pub open spec fn byz_nodes_spec(entries: Seq<(String, BftStorageEntry)>, n: int) -> Seq<NodeId>
    decreases n,
{
    if n <= 0 {
        Seq::empty()
    } else {
        byz_accum_reps(
            byz_nodes_spec(entries, n - 1),
            entries[n - 1].1.replicas@,
            entries[n - 1].1.replicas@.len() as int,
        )
    }
}

/// The keys of the first `n` entries of `s` that are not intact, in
/// scan order.
pub open spec fn corrupted_prefix(s: BftStorage, n: int) -> Seq<String>
    decreases n,
{
    if n <= 0 {
        Seq::empty()
    } else {
        let rest = corrupted_prefix(s, n - 1);
        if !s.intact(s.entries@[n - 1].0@) {
            rest.push(s.entries@[n - 1].0)
        } else {
            rest
        }
    }
}

/// Every key of a corrupted prefix names a present entry that is not
/// intact, and every present key that is not intact appears.
pub proof fn lemma_corrupted_prefix_members(s: BftStorage, n: int)
    requires
        keys_unique(s.entries@),
        0 <= n <= s.entries@.len(),
    ensures
        forall|i: int|
            0 <= i < corrupted_prefix(s, n).len() ==> s.has_entry(
                (#[trigger] corrupted_prefix(s, n)[i])@,
            ) && !s.intact(corrupted_prefix(s, n)[i]@),
        forall|j: int|
            0 <= j < n && !s.intact((#[trigger] s.entries@[j]).0@) ==> exists|i: int|
                0 <= i < corrupted_prefix(s, n).len() && corrupted_prefix(s, n)[i]@
                    == s.entries@[j].0@,
    decreases n,
{
    if n > 0 {
        lemma_corrupted_prefix_members(s, n - 1);
        let rest = corrupted_prefix(s, n - 1);
        let cur = corrupted_prefix(s, n);
        let k = s.entries@[n - 1].0@;
        lemma_found_is_key_index(s.entries@, k, n - 1);
        assert forall|i: int|
            0 <= i < cur.len() implies s.has_entry((#[trigger] cur[i])@) && !s.intact(
            cur[i]@,
        ) by {
            if !s.intact(k) && i == cur.len() - 1 {
                assert(cur[i] == s.entries@[n - 1].0);
            } else {
                assert(cur[i] == rest[i]);
            }
        }
        assert forall|j: int|
            0 <= j < n && !s.intact((#[trigger] s.entries@[j]).0@) implies exists|i: int|
            0 <= i < cur.len() && cur[i]@ == s.entries@[j].0@ by {
            if j == n - 1 {
                assert(cur[cur.len() - 1]@ == k);
            } else {
                let i = choose|i: int|
                    0 <= i < rest.len() && rest[i]@ == s.entries@[j].0@;
                assert(cur[i]@ == s.entries@[j].0@);
            }
        }
    }
}

/// Counts the replicas of `reps` that vouch for `h`.
fn count_hash(reps: &Vec<BftReplica>, h: &Vec<u8>) -> (r: u64)
    ensures
        r as int == hash_count(reps@, h@),
        r <= reps@.len(),
{
    let mut count: u64 = 0;
    let mut i: usize = 0;
    while i < reps.len()
        invariant
            0 <= i <= reps@.len(),
            count <= i,
            count as int == hash_count(reps@.take(i as int), h@),
        decreases reps@.len() - i,
    {
        proof {
            assert(reps@.take(i + 1).drop_last() == reps@.take(i as int));
            assert(reps@.take(i + 1).last() == reps@[i as int]);
        }
        if bytes_eq(&reps[i].data_hash, h) {
            count += 1;
        }
        i += 1;
    }
    proof {
        assert(reps@.take(reps@.len() as int) == reps@);
    }
    count
}

impl BftStorage {
    /// Scans every entry's replicas for split hashes and reports the
    /// nodes on the minority side, each once, in scan order.
    pub fn detect_byzantine_replicas(&self) -> (r: Vec<NodeId>)
        ensures
            r@ == byz_nodes_spec(self.entries@, self.entries@.len() as int),
    {
        let mut out: Vec<NodeId> = Vec::new();
        let mut ei: usize = 0;
        while ei < self.entries.len()
            invariant
                0 <= ei <= self.entries@.len(),
                out@ == byz_nodes_spec(self.entries@, ei as int),
            decreases self.entries@.len() - ei,
        {
            let reps = &self.entries[ei].1.replicas;
            let mut mx: u64 = 0;
            let mut a: usize = 0;
            while a < reps.len()
                invariant
                    reps@ == self.entries@[ei as int].1.replicas@,
                    0 <= a <= reps@.len(),
                    mx as int == max_count_upto(reps@, a as int),
                    mx <= reps@.len(),
                decreases reps@.len() - a,
            {
                let c = count_hash(reps, &reps[a].data_hash);
                if c > mx {
                    mx = c;
                }
                a += 1;
            }
            let ghost acc0 = out@;
            let mut b: usize = 0;
            while b < reps.len()
                invariant
                    reps@ == self.entries@[ei as int].1.replicas@,
                    0 <= b <= reps@.len(),
                    mx as int == max_count_upto(reps@, reps@.len() as int),
                    out@ == byz_accum_reps(acc0, reps@, b as int),
                decreases reps@.len() - b,
            {
                let c = count_hash(reps, &reps[b].data_hash);
                if c < mx && !crate::node::nodes_contain(&out, reps[b].node_id) {
                    out.push(reps[b].node_id);
                }
                b += 1;
            }
            ei += 1;
        }
        out
    }

    /// Sweeps every entry, classifying it with the same checks as
    /// retrieval: the keys that fail land in `corrupted_entries` and,
    /// identically, in `recovery_needed`; minority-hash replicas are
    /// reported as Byzantine nodes; and the failure counters advance.
    pub fn verify_all_integrity(&mut self) -> (r: Result<BftIntegrityReport, BftError>)
        requires
            old(self).wf(),
        ensures
            final(self).wf(),
            final(self).entries@ == old(self).entries@,
            final(self).integrity_checks@ == old(self).integrity_checks@,
            final(self).consensus == old(self).consensus,
            final(self).storage_id@ == old(self).storage_id@,
            final(self).replication_factor == old(self).replication_factor,
            r matches Ok(report) && {
                let n = old(self).entries@.len() as int;
                let corrupted = corrupted_prefix(*old(self), n);
                &&& report.total_checked == n
                &&& report.corrupted_entries@ == corrupted
                &&& report.recovery_needed@ == corrupted
                &&& report.integrity_failed == corrupted.len()
                &&& report.integrity_passed == n - corrupted.len()
                &&& report.byzantine_nodes@ == byz_nodes_spec(old(self).entries@, n)
                &&& final(self).metrics.integrity_failures as int == sat_add(
                    old(self).metrics.integrity_failures,
                    corrupted.len() as int,
                )
                &&& final(self).metrics.byzantine_detections as int == sat_add(
                    old(self).metrics.byzantine_detections,
                    report.byzantine_nodes@.len() as int,
                )
                &&& final(self).metrics.total_entries == old(self).metrics.total_entries
                &&& final(self).metrics.replicated_entries == old(self).metrics.replicated_entries
                &&& final(self).metrics.consensus_operations == old(
                    self,
                ).metrics.consensus_operations
                &&& final(self).metrics.recovery_operations == old(
                    self,
                ).metrics.recovery_operations
            },
    {
        let mut corrupted: Vec<String> = Vec::new();
        let mut i: usize = 0;
        while i < self.entries.len()
            invariant
                old(self).wf(),
                *self == *old(self),
                0 <= i <= self.entries@.len(),
                corrupted@ == corrupted_prefix(*old(self), i as int),
                corrupted@.len() <= i,
            decreases self.entries@.len() - i,
        {
            let pair = &self.entries[i];
            let ok = entry_ok(&pair.1, &self.integrity_checks, pair.0.as_str());
            proof {
                lemma_found_is_key_index(self.entries@, self.entries@[i as int].0@, i as int);
            }
            if !ok {
                corrupted.push(pair.0.clone());
                proof {
                    assert(corrupted@.drop_last() =~= corrupted_prefix(*old(self), i as int));
                    assert(corrupted@ =~= corrupted_prefix(*old(self), i + 1));
                }
            }
            i += 1;
        }
        let byzantine_nodes = self.detect_byzantine_replicas();
        let total = self.entries.len() as u64;
        let failed = corrupted.len() as u64;
        let recovery_needed = corrupted.clone();
        proof {
            assert(recovery_needed@ =~= corrupted@);
        }
        let report = BftIntegrityReport {
            total_checked: total,
            integrity_passed: total - failed,
            integrity_failed: failed,
            corrupted_entries: corrupted,
            byzantine_nodes,
            recovery_needed,
        };
        let if_room = u64::MAX - self.metrics.integrity_failures;
        self.metrics.integrity_failures = if failed <= if_room {
            self.metrics.integrity_failures + failed
        } else {
            u64::MAX
        };
        let bd = report.byzantine_nodes.len() as u64;
        let bd_room = u64::MAX - self.metrics.byzantine_detections;
        self.metrics.byzantine_detections = if bd <= bd_room {
            self.metrics.byzantine_detections + bd
        } else {
            u64::MAX
        };
        Ok(report)
    }
}

/// Corrupting a stored entry's hash makes a full sweep list its key
/// among the corrupted entries — and so, by the sweep's contract,
/// among those needing recovery as well.
pub proof fn lemma_corrupted_hash_reported(s: BftStorage, j: int)
    requires
        s.wf(),
        0 <= j < s.entries@.len(),
        s.entries@[j].1.hash@ != sha256_of(s.entries@[j].1.data@),
    ensures
        exists|i: int|
            0 <= i < corrupted_prefix(s, s.entries@.len() as int).len() && corrupted_prefix(
                s,
                s.entries@.len() as int,
            )[i]@ == s.entries@[j].0@,
{
    let k = s.entries@[j].0@;
    lemma_found_is_key_index(s.entries@, k, j);
    assert(s.entry_at(k) == s.entries@[j].1);
    assert(!s.intact(k));
    lemma_corrupted_prefix_members(s, s.entries@.len() as int);
}

/// The index, among the first `n` replicas, of the first replica
/// whose hash has the largest tally.
pub open spec fn argmax_upto(reps: Seq<BftReplica>, n: int) -> int
    decreases n,
{
    if n <= 1 {
        0
    } else {
        let p = argmax_upto(reps, n - 1);
        if hash_count(reps, reps[n - 1].data_hash@) > hash_count(reps, reps[p].data_hash@) {
            n - 1
        } else {
            p
        }
    }
}

/// The hash held by the most replicas of an entry — on a tie, the
/// one seen first in replica order.
pub open spec fn majority_hash(reps: Seq<BftReplica>) -> Seq<u8> {
    reps[argmax_upto(reps, reps.len() as int)].data_hash@
}

/// What a recovered entry looks like: data, hash and creation stamp
/// kept, the version bumped, the update stamp refreshed, and one
/// more replica when the factor leaves room.
pub open spec fn recovered_entry(
    e0: BftStorageEntry,
    e: BftStorageEntry,
    signer: NodeId,
    now: u64,
    factor: u32,
) -> bool {
    &&& e.data@ == e0.data@
    &&& e.hash@ == e0.hash@
    &&& e.version == e0.version + 1
    &&& e.created_at == e0.created_at
    &&& e.updated_at == now
    &&& e.consensus_proof@ == e0.consensus_proof@
    &&& if e0.replicas@.len() < factor {
        &&& e.replicas@.len() == e0.replicas@.len() + 1
        &&& e.replicas@.drop_last() == e0.replicas@
        &&& fresh_replica(e.replicas@.last(), signer, e0.hash@, now)
    } else {
        e.replicas@ == e0.replicas@
    }
}

impl BftStorage {
    /// Attempts to recover the entry under `key` from its replicas:
    /// the majority hash among the replicas is computed, and the
    /// entry counts as recovered only when its own hash already
    /// matches that majority — replicas hold hashes, not copies, so
    /// divergent data cannot be reconstructed from them.  An entry
    /// without replicas cannot form a majority and fails with
    /// `ConsensusFailure`; a hash off the majority fails with
    /// `IntegrityFailure`.
    pub fn recover_corrupted_data(&mut self, key: &str, now: u64) -> (r: Result<(), BftError>)
        requires
            old(self).wf(),
            old(self).metrics.recovery_operations < u64::MAX,
            old(self).has_entry(key@) ==> old(self).entry_at(key@).version < u64::MAX,
        ensures
            final(self).wf(),
            !old(self).has_entry(key@) ==> r == Result::<(), BftError>::Err(BftError::NotFound)
                && *final(self) == *old(self),
            old(self).has_entry(key@) && old(self).entry_at(key@).replicas@.len() == 0 ==> r
                == Result::<(), BftError>::Err(BftError::ConsensusFailure) && *final(self)
                == *old(self),
            old(self).has_entry(key@) && old(self).entry_at(key@).replicas@.len() > 0
                && majority_hash(old(self).entry_at(key@).replicas@) != old(self).entry_at(
                key@,
            ).hash@ ==> r == Result::<(), BftError>::Err(BftError::IntegrityFailure)
                && *final(self) == *old(self),
            old(self).has_entry(key@) && old(self).entry_at(key@).replicas@.len() > 0
                && majority_hash(old(self).entry_at(key@).replicas@) == old(self).entry_at(
                key@,
            ).hash@ ==> {
                &&& r == Result::<(), BftError>::Ok(())
                &&& upserted(old(self).entries@, final(self).entries@, key@)
                &&& recovered_entry(
                    old(self).entry_at(key@),
                    upserted_value(old(self).entries@, final(self).entries@, key@),
                    old(self).consensus.self_id,
                    now,
                    old(self).replication_factor,
                )
                &&& upserted(old(self).integrity_checks@, final(self).integrity_checks@, key@)
                &&& fresh_proof(
                    upserted_value(
                        old(self).integrity_checks@,
                        final(self).integrity_checks@,
                        key@,
                    ),
                    old(self).consensus.self_id,
                    old(self).entry_at(key@).hash@,
                    now,
                )
                &&& final(self).metrics.recovery_operations == old(
                    self,
                ).metrics.recovery_operations + 1
                &&& final(self).metrics.total_entries == old(self).metrics.total_entries
                &&& final(self).metrics.replicated_entries == old(self).metrics.replicated_entries
                &&& final(self).metrics.integrity_failures == old(self).metrics.integrity_failures
                &&& final(self).metrics.byzantine_detections == old(
                    self,
                ).metrics.byzantine_detections
                &&& final(self).metrics.consensus_operations == old(
                    self,
                ).metrics.consensus_operations
                &&& final(self).consensus == old(self).consensus
            },
            final(self).storage_id@ == old(self).storage_id@,
            final(self).replication_factor == old(self).replication_factor,
    {
        let j = match find_entry_key(&self.entries, key) {
            Some(j) => j,
            None => {
                return Err(BftError::NotFound);
            },
        };
        proof {
            lemma_found_is_key_index(self.entries@, key@, j as int);
        }
        let replica_count = self.entries[j].1.replicas.len();
        if replica_count == 0 {
            return Err(BftError::ConsensusFailure);
        }
        // The hash held by the most replicas, first occurrence on a tie.
        let mut best: usize = 0;
        let mut best_count = {
            let reps = &self.entries[j].1.replicas;
            count_hash(reps, &reps[0].data_hash)
        };
        let mut a: usize = 1;
        while a < replica_count
            invariant
                j < self.entries@.len(),
                replica_count == self.entries@[j as int].1.replicas@.len(),
                replica_count > 0,
                1 <= a <= replica_count,
                best < a,
                best as int == argmax_upto(self.entries@[j as int].1.replicas@, a as int),
                best_count as int == hash_count(
                    self.entries@[j as int].1.replicas@,
                    self.entries@[j as int].1.replicas@[best as int].data_hash@,
                ),
            decreases replica_count - a,
        {
            let c = {
                let reps = &self.entries[j].1.replicas;
                count_hash(reps, &reps[a].data_hash)
            };
            if c > best_count {
                best = a;
                best_count = c;
            }
            a += 1;
        }
        let majority_matches = {
            let reps = &self.entries[j].1.replicas;
            bytes_eq(&reps[best].data_hash, &self.entries[j].1.hash)
        };
        if !majority_matches {
            return Err(BftError::IntegrityFailure);
        }
        let ghost entries_pre = self.entries@;
        let pair = self.entries.remove(j);
        let key_string = pair.0;
        let mut entry = pair.1;
        let hash = entry.hash.clone();
        entry.updated_at = now;
        entry.version = entry.version + 1;
        if (entry.replicas.len() as u64) < (self.replication_factor as u64) {
            let signature = sign_data(self.consensus.self_id, hash.as_slice());
            let ghost reps0 = entry.replicas@;
            entry.replicas.push(
                BftReplica {
                    node_id: self.consensus.self_id,
                    data_hash: hash.clone(),
                    signature,
                    timestamp: now,
                },
            );
            proof {
                assert(entry.replicas@.drop_last() =~= reps0);
            }
        }
        let p = self.build_proof(&hash, now);
        self.entries.insert(j, (key_string, entry));
        proof {
            assert(self.entries@ =~= entries_pre.update(j as int, self.entries@[j as int]));
            assert(upserted(entries_pre, self.entries@, key@));
            lemma_upsert_props(entries_pre, self.entries@, key@);
        }
        let ghost proofs_pre = self.integrity_checks@;
        let mut key_copy = String::new();
        key_copy.append(key);
        upsert_proof(&mut self.integrity_checks, key_copy, p);
        self.metrics.recovery_operations = self.metrics.recovery_operations + 1;
        proof {
            lemma_upsert_props(proofs_pre, self.integrity_checks@, key@);
            assert forall|i: int|
                0 <= i < self.entries@.len() implies (
            #[trigger] self.entries@[i]).1.replicas@.len() <= self.replication_factor by {
                if i != j as int {
                    assert(self.entries@[i] == entries_pre[i]);
                }
            }
        }
        Ok(())
    }
}

} // verus!
