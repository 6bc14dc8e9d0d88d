//! The consensus engine: a per-domain state machine that drives
//! operations through propose / prevote / precommit / commit phases,
//! adopts higher views, tracks liveness through heartbeats, and flags
//! Byzantine senders detected in its message log.

use vstd::prelude::*;

use crate::bytes::{u64_be_bytes, u64_from_be_bytes, u64_from_bytes, u64_to_bytes, concat_bytes};
use crate::errors::BftError;
use crate::hash::{sha256, sha256_of};
use crate::node::{
    lemma_remove_node_props, nodes_contain, nodes_remove, nodes_unique, remove_node_spec,
    seq_contains_node, NodeId,
};

verus! {

/// The six message kinds of the protocol.
#[derive(Clone, Copy, Debug, PartialEq, Eq, Structural)]
pub enum BftMessageType {
    Propose,
    Prevote,
    Precommit,
    Commit,
    ViewChange,
    Heartbeat,
}

/// A protocol message.  Messages are immutable once created and are
/// appended to the engine's time-ordered log when accepted.
#[derive(Clone, Debug)]
pub struct BftMessage {
    pub message_type: BftMessageType,
    pub view: u64,
    pub sequence: u64,
    pub sender: NodeId,
    pub timestamp: u64,
    pub data_hash: Vec<u8>,
    pub signature: Vec<u8>,
    pub payload: Vec<u8>,
}

/// One collected signature over an operation.
#[derive(Clone, Debug)]
pub struct BftSignature {
    pub signer: NodeId,
    pub signature: Vec<u8>,
    pub timestamp: u64,
}

/// The life cycle of an operation.  `Proposed` is initial;
/// `Committed`, `Rejected` and `TimedOut` are terminal.
#[derive(Clone, Copy, Debug, PartialEq, Eq, Structural)]
pub enum BftOperationStatus {
    Proposed,
    Collecting,
    Committed,
    Rejected,
    TimedOut,
}

/// An operation under agreement, retained in the pending map until
/// committed or evicted, and mutated only by the engine as signatures
/// accumulate.
#[derive(Clone, Debug)]
pub struct BftOperation {
    pub operation_id: u64,
    pub operation_type: String,
    pub initiator: NodeId,
    pub timestamp: u64,
    pub data: Vec<u8>,
    pub required_signatures: u64,
    pub collected_signatures: Vec<BftSignature>,
    pub status: BftOperationStatus,
}

/// The mutable consensus state of one domain.
#[derive(Clone, Debug)]
pub struct BftState {
    pub current_view: u64,
    pub current_sequence: u64,
    pub active_nodes: Vec<NodeId>,
    pub pending_operations: Vec<BftOperation>,
    pub committed_operations: Vec<u64>,
    pub byzantine_nodes: Vec<NodeId>,
    pub last_checkpoint: u64,
}

/// The number of simultaneous faults tolerated among `n` active
/// nodes: the largest `f` with `n >= 3f + 1`.
pub open spec fn fault_tolerance_of(n: int) -> int {
    if n <= 0 {
        0
    } else {
        (n - 1) / 3
    }
}

/// The quorum size over `n` active nodes: `2f + 1`.
pub open spec fn required_signatures_of(n: int) -> int {
    2 * fault_tolerance_of(n) + 1
}

/// Whether no two pending operations share an identifier.
pub open spec fn ops_unique(ops: Seq<BftOperation>) -> bool {
    forall|i: int, j: int|
        0 <= i < j < ops.len() ==> ops[i].operation_id != ops[j].operation_id
}

/// Whether `ops` holds an operation with identifier `id`.
pub open spec fn has_op(ops: Seq<BftOperation>, id: u64) -> bool {
    exists|i: int| 0 <= i < ops.len() && ops[i].operation_id == id
}

/// The index of the operation with identifier `id`, when one exists.
pub open spec fn op_index(ops: Seq<BftOperation>, id: u64) -> int {
    choose|i: int| 0 <= i < ops.len() && ops[i].operation_id == id
}

impl BftState {
    /// Structural well-formedness: the rosters hold no duplicates, no
    /// node is both active and Byzantine, and pending operation
    /// identifiers are unique.
    pub open spec fn wf(&self) -> bool {
        &&& nodes_unique(self.active_nodes@)
        &&& nodes_unique(self.byzantine_nodes@)
        &&& forall|i: int|
            0 <= i < self.active_nodes@.len() ==> !seq_contains_node(
                self.byzantine_nodes@,
                #[trigger] self.active_nodes@[i],
            )
        &&& ops_unique(self.pending_operations@)
    }

    /// A fresh consensus state: view and sequence at zero, empty
    /// rosters and logs, checkpointed at `now`.
    pub fn new(now: u64) -> (r: BftState)
        ensures
            r.current_view == 0,
            r.current_sequence == 0,
            r.active_nodes@ == Seq::<NodeId>::empty(),
            r.pending_operations@ == Seq::<BftOperation>::empty(),
            r.committed_operations@ == Seq::<u64>::empty(),
            r.byzantine_nodes@ == Seq::<NodeId>::empty(),
            r.last_checkpoint == now,
            r.wf(),
    {
        BftState {
            current_view: 0,
            current_sequence: 0,
            active_nodes: Vec::new(),
            pending_operations: Vec::new(),
            committed_operations: Vec::new(),
            byzantine_nodes: Vec::new(),
            last_checkpoint: now,
        }
    }

    /// The number of faults the current roster tolerates:
    /// `⌊(n - 1) / 3⌋` for `n` active nodes.
    pub fn get_fault_tolerance(&self) -> (r: u64)
        ensures
            r as int == fault_tolerance_of(self.active_nodes@.len() as int),
    {
        let n = self.active_nodes.len();
        if n == 0 {
            0
        } else {
            ((n - 1) / 3) as u64
        }
    }

    /// The quorum size of the current roster: `2f + 1` signatures.
    pub fn get_required_signatures(&self) -> (r: u64)
        ensures
            r as int == required_signatures_of(self.active_nodes@.len() as int),
    {
        let n = self.active_nodes.len();
        let f = self.get_fault_tolerance();
        proof {
            if n > 0 {
                assert(3 * ((n - 1) as int / 3) <= n - 1);
            }
        }
        2 * f + 1
    }

    /// Whether `node` has been flagged Byzantine.
    pub fn is_byzantine_node(&self, node: &NodeId) -> (r: bool)
        ensures
            r == seq_contains_node(self.byzantine_nodes@, *node),
    {
        nodes_contain(&self.byzantine_nodes, *node)
    }

    /// Flags `node` Byzantine: inserts it into the Byzantine set
    /// (once) and evicts it from the active roster, so that the two
    /// rosters stay disjoint.  There is no rehabilitation.
    pub fn add_byzantine_flag(&mut self, node: NodeId)
        requires
            old(self).wf(),
        ensures
            final(self).wf(),
            byzantine_flagged(*old(self), *final(self), node),
    {
        let already = nodes_contain(&self.byzantine_nodes, node);
        if !already {
            self.byzantine_nodes.push(node);
            proof {
                assert(self.byzantine_nodes@[old(self).byzantine_nodes@.len() as int] == node);
            }
        }
        nodes_remove(&mut self.active_nodes, node);
        proof {
            lemma_remove_node_props(old(self).active_nodes@, node);
            assert forall|i: int|
                0 <= i < self.active_nodes@.len() implies !seq_contains_node(
                self.byzantine_nodes@,
                #[trigger] self.active_nodes@[i],
            ) by {
                let x = self.active_nodes@[i];
                assert(old(self).active_nodes@.contains(x));
                let k = choose|k: int|
                    0 <= k < old(self).active_nodes@.len() && old(self).active_nodes@[k] == x;
                assert(!seq_contains_node(old(self).byzantine_nodes@, x));
                assert(x != node);
            }
        }
    }
}

/// The flooding window in milliseconds.
pub const FLOOD_WINDOW_MS: u64 = 1000;

/// The number of recent messages from one sender the log tolerates.
pub const FLOOD_LIMIT: u64 = 100;

/// Whether a message stamped `t` lies within the flooding window at
/// time `now` (a timestamp in the future counts as recent).
pub open spec fn within_flood_window(t: u64, now: u64) -> bool {
    now <= t || now - t < FLOOD_WINDOW_MS
}

/// Whether the bytes of a message pass the authenticity check: a
/// non-empty signature, a non-zero timestamp and a non-empty hash.
pub open spec fn msg_authentic(m: BftMessage) -> bool {
    &&& m.signature@.len() > 0
    &&& m.timestamp > 0
    &&& m.data_hash@.len() > 0
}

/// Whether two messages equivocate: same sender, view, sequence and
/// kind but different hashes.
pub open spec fn conflicts(a: BftMessage, b: BftMessage) -> bool {
    &&& a.sender == b.sender
    &&& a.view == b.view
    &&& a.sequence == b.sequence
    &&& a.message_type == b.message_type
    &&& a.data_hash@ != b.data_hash@
}

/// Whether some logged message equivocates with `m`.
pub open spec fn equivocates(log: Seq<BftMessage>, m: BftMessage) -> bool {
    exists|i: int| 0 <= i < log.len() && conflicts(#[trigger] log[i], m)
}

/// The number of logged messages from `sender` within the flooding
/// window at `now`.
pub open spec fn recent_count(log: Seq<BftMessage>, sender: NodeId, now: u64) -> int
    decreases log.len(),
{
    if log.len() == 0 {
        0
    } else {
        recent_count(log.drop_last(), sender, now) + if log.last().sender == sender
            && within_flood_window(log.last().timestamp, now) {
            1int
        } else {
            0int
        }
    }
}

/// Whether `m` floods the log: over the limit of recent messages from
/// its sender.
pub open spec fn floods(log: Seq<BftMessage>, m: BftMessage, now: u64) -> bool {
    recent_count(log, m.sender, now) > FLOOD_LIMIT
}

/// Whether `m` jumps ahead of the protocol: a view or sequence number
/// more than one past the current one.
pub open spec fn out_of_order(state: BftState, m: BftMessage) -> bool {
    m.view > state.current_view + 1 || m.sequence > state.current_sequence + 1
}

/// The bytes a node signs for an operation: its own identifier
/// followed by the operation identifier.
pub open spec fn sign_preimage(signer: NodeId, op_id: u64) -> Seq<u8> {
    u64_be_bytes(signer.id) + u64_be_bytes(op_id)
}

/// The operation identifier carried in a message payload, when the
/// payload is a well-formed eight-byte frame.
pub open spec fn payload_op_id(m: BftMessage) -> Option<u64> {
    if m.payload@.len() == 8 {
        Some(u64_from_be_bytes(m.payload@))
    } else {
        None
    }
}

/// What a freshly proposed operation looks like.
pub open spec fn proposed_operation(
    op: BftOperation,
    id: u64,
    op_type: Seq<char>,
    initiator: NodeId,
    data: Seq<u8>,
    req: int,
    now: u64,
) -> bool {
    &&& op.operation_id == id
    &&& op.operation_type@ == op_type
    &&& op.initiator == initiator
    &&& op.timestamp == now
    &&& op.data@ == data
    &&& op.required_signatures == req
    &&& op.collected_signatures@ == Seq::<BftSignature>::empty()
    &&& op.status == BftOperationStatus::Proposed
}

/// What a broadcast message looks like: stamped with the engine's own
/// identity and clock, framed around an operation identifier, hashed
/// over that frame, and carrying an empty signature — the signing of
/// broadcasts is left to the signature collaborator.
pub open spec fn broadcast_message(
    m: BftMessage,
    mt: BftMessageType,
    view: u64,
    seqno: u64,
    sender: NodeId,
    now: u64,
    op_id: u64,
) -> bool {
    &&& m.message_type == mt
    &&& m.view == view
    &&& m.sequence == seqno
    &&& m.sender == sender
    &&& m.timestamp == now
    &&& m.data_hash@ == sha256_of(u64_be_bytes(op_id))
    &&& m.signature@ == Seq::<u8>::empty()
    &&& m.payload@ == u64_be_bytes(op_id)
}

/// The successful proposal transition: a fresh operation enters the
/// pending map in `Proposed` status with the quorum requirement of
/// the current roster, a `Propose` message is logged, and nothing
/// else moves.
pub open spec fn proposed_transition(
    pre: BftConsensus,
    post: BftConsensus,
    op_type: Seq<char>,
    initiator: NodeId,
    data: Seq<u8>,
    now: u64,
) -> bool {
    &&& post.next_operation_id == pre.next_operation_id + 1
    &&& post.state.pending_operations@.len() == pre.state.pending_operations@.len() + 1
    &&& post.state.pending_operations@.drop_last() == pre.state.pending_operations@
    &&& proposed_operation(
        post.state.pending_operations@.last(),
        pre.next_operation_id,
        op_type,
        initiator,
        data,
        required_signatures_of(pre.state.active_nodes@.len() as int),
        now,
    )
    &&& post.message_log@.len() == pre.message_log@.len() + 1
    &&& post.message_log@.drop_last() == pre.message_log@
    &&& broadcast_message(
        post.message_log@.last(),
        BftMessageType::Propose,
        pre.state.current_view,
        pre.state.current_sequence,
        pre.self_id,
        now,
        pre.next_operation_id,
    )
    &&& post.state.current_view == pre.state.current_view
    &&& post.state.current_sequence == pre.state.current_sequence
    &&& post.state.active_nodes@ == pre.state.active_nodes@
    &&& post.state.committed_operations@ == pre.state.committed_operations@
    &&& post.state.byzantine_nodes@ == pre.state.byzantine_nodes@
    &&& post.state.last_checkpoint == pre.state.last_checkpoint
    &&& post.self_id == pre.self_id
}

/// The consensus engine of one domain: its state, its message log and
/// its own identity, plus the allocator for operation identifiers.
#[derive(Debug)]
pub struct BftConsensus {
    pub state: BftState,
    pub message_log: Vec<BftMessage>,
    pub self_id: NodeId,
    pub next_operation_id: u64,
}

impl BftConsensus {
    /// Well-formedness: the state is well-formed and every pending
    /// operation identifier was allocated below the next one.
    pub open spec fn wf(&self) -> bool {
        &&& self.state.wf()
        &&& forall|i: int|
            0 <= i < self.state.pending_operations@.len() ==> (
            #[trigger] self.state.pending_operations@[i]).operation_id < self.next_operation_id
    }

    /// A fresh engine for one domain, owned by the node `self_id`.
    pub fn new(self_id: NodeId, now: u64) -> (r: BftConsensus)
        ensures
            r.wf(),
            r.state.current_view == 0,
            r.state.current_sequence == 0,
            r.state.active_nodes@ == Seq::<NodeId>::empty(),
            r.state.pending_operations@ == Seq::<BftOperation>::empty(),
            r.state.committed_operations@ == Seq::<u64>::empty(),
            r.state.byzantine_nodes@ == Seq::<NodeId>::empty(),
            r.state.last_checkpoint == now,
            r.message_log@ == Seq::<BftMessage>::empty(),
            r.self_id == self_id,
            r.next_operation_id == 0,
    {
        BftConsensus {
            state: BftState::new(now),
            message_log: Vec::new(),
            self_id,
            next_operation_id: 0,
        }
    }

    /// Signs an operation identifier on behalf of this node: a
    /// hash-based stand-in for a real signature, the digest of the
    /// signer identity and the operation identifier.
    fn sign_operation(&self, op_id: u64) -> (r: Vec<u8>)
        ensures
            r@ == sha256_of(sign_preimage(self.self_id, op_id)),
            r@.len() == 32,
    {
        let me = u64_to_bytes(self.self_id.id);
        let oid = u64_to_bytes(op_id);
        let pre = concat_bytes(me.as_slice(), oid.as_slice());
        sha256(pre.as_slice())
    }

    /// Appends a broadcast message for `op_id` to the log.  In this
    /// single-process simulation a broadcast only reaches the local
    /// log; a networked deployment would also send it to every peer.
    fn broadcast(&mut self, mt: BftMessageType, op_id: u64, now: u64) -> (m: Ghost<BftMessage>)
        ensures
            final(self).message_log@ == old(self).message_log@.push(m@),
            broadcast_message(
                m@,
                mt,
                old(self).state.current_view,
                old(self).state.current_sequence,
                old(self).self_id,
                now,
                op_id,
            ),
            final(self).state == old(self).state,
            final(self).self_id == old(self).self_id,
            final(self).next_operation_id == old(self).next_operation_id,
    {
        let payload = u64_to_bytes(op_id);
        let data_hash = sha256(payload.as_slice());
        let message = BftMessage {
            message_type: mt,
            view: self.state.current_view,
            sequence: self.state.current_sequence,
            sender: self.self_id,
            timestamp: now,
            data_hash,
            signature: Vec::new(),
            payload,
        };
        let ghost g = message;
        self.message_log.push(message);
        Ghost(g)
    }

    /// Proposes an operation for agreement.  A flagged initiator is
    /// rejected outright; otherwise the operation enters the pending
    /// map in `Proposed` status with a quorum requirement of `2f + 1`
    /// over the current roster, and a `Propose` message is logged.
    pub fn propose_operation(
        &mut self,
        operation_type: String,
        initiator: NodeId,
        data: Vec<u8>,
        now: u64,
    ) -> (r: Result<u64, BftError>)
        requires
            old(self).wf(),
            old(self).next_operation_id < u64::MAX,
        ensures
            final(self).wf(),
            seq_contains_node(old(self).state.byzantine_nodes@, initiator) ==> r == Result::<
                u64,
                BftError,
            >::Err(BftError::ByzantineRejection) && *final(self) == *old(self),
            !seq_contains_node(old(self).state.byzantine_nodes@, initiator) ==> r
                == Result::<u64, BftError>::Ok(old(self).next_operation_id)
                && proposed_transition(
                *old(self),
                *final(self),
                operation_type@,
                initiator,
                data@,
                now,
            ),
            final(self).self_id == old(self).self_id,
    {
        if self.state.is_byzantine_node(&initiator) {
            return Err(BftError::ByzantineRejection);
        }
        let operation_id = self.next_operation_id;
        self.next_operation_id = operation_id + 1;
        let required = self.state.get_required_signatures();
        let operation = BftOperation {
            operation_id,
            operation_type,
            initiator,
            timestamp: now,
            data,
            required_signatures: required,
            collected_signatures: Vec::new(),
            status: BftOperationStatus::Proposed,
        };
        self.state.pending_operations.push(operation);
        self.broadcast(BftMessageType::Propose, operation_id, now);
        proof {
            assert(self.state.pending_operations@.drop_last() =~= old(
                self,
            ).state.pending_operations@);
            assert(self.message_log@.drop_last() =~= old(self).message_log@);
        }
        Ok(operation_id)
    }

    /// Recomputes the hash of `stored_data` and compares it with the
    /// expected one.
    pub fn verify_data_integrity(&self, data_hash: &[u8], stored_data: &[u8]) -> (r: bool)
        ensures
            r == (data_hash@ == sha256_of(stored_data@)),
    {
        let computed = sha256(stored_data);
        crate::bytes::slice_eq(computed.as_slice(), data_hash)
    }
}

/// The flagging transition on a consensus state: `node` enters the
/// Byzantine set if it was not there, leaves the active roster, and
/// everything else is untouched.
pub open spec fn byzantine_flagged(pre: BftState, post: BftState, node: NodeId) -> bool {
    &&& post.byzantine_nodes@ == if seq_contains_node(pre.byzantine_nodes@, node) {
        pre.byzantine_nodes@
    } else {
        pre.byzantine_nodes@.push(node)
    }
    &&& post.active_nodes@ == remove_node_spec(pre.active_nodes@, node)
    &&& seq_contains_node(post.byzantine_nodes@, node)
    &&& !seq_contains_node(post.active_nodes@, node)
    &&& post.current_view == pre.current_view
    &&& post.current_sequence == pre.current_sequence
    &&& post.pending_operations@ == pre.pending_operations@
    &&& post.committed_operations@ == pre.committed_operations@
    &&& post.last_checkpoint == pre.last_checkpoint
}

/// Every field of two consensus states equal except the pending map.
pub open spec fn state_same_but_ops(a: BftState, b: BftState) -> bool {
    &&& b.current_view == a.current_view
    &&& b.current_sequence == a.current_sequence
    &&& b.active_nodes@ == a.active_nodes@
    &&& b.committed_operations@ == a.committed_operations@
    &&& b.byzantine_nodes@ == a.byzantine_nodes@
    &&& b.last_checkpoint == a.last_checkpoint
}

/// Whether an operation has collected its quorum.
pub open spec fn quorum_reached(op: BftOperation) -> bool {
    op.collected_signatures@.len() >= op.required_signatures
}

/// `op2` is `op` with one signature appended — by `signer`, stamped
/// `now`, over the signer/operation preimage — and moved to
/// `Collecting`.
pub open spec fn signature_appended(
    op: BftOperation,
    op2: BftOperation,
    signer: NodeId,
    oid: u64,
    now: u64,
) -> bool {
    &&& op2.operation_id == op.operation_id
    &&& op2.operation_type == op.operation_type
    &&& op2.initiator == op.initiator
    &&& op2.timestamp == op.timestamp
    &&& op2.data == op.data
    &&& op2.required_signatures == op.required_signatures
    &&& op2.collected_signatures@.len() == op.collected_signatures@.len() + 1
    &&& op2.collected_signatures@.drop_last() == op.collected_signatures@
    &&& op2.collected_signatures@.last().signer == signer
    &&& op2.collected_signatures@.last().timestamp == now
    &&& op2.collected_signatures@.last().signature@ == sha256_of(sign_preimage(signer, oid))
    &&& op2.status == BftOperationStatus::Collecting
}

/// `op2` is `op` marked `Committed`.
pub open spec fn marked_committed(op: BftOperation, op2: BftOperation) -> bool {
    &&& op2.operation_id == op.operation_id
    &&& op2.operation_type == op.operation_type
    &&& op2.initiator == op.initiator
    &&& op2.timestamp == op.timestamp
    &&& op2.data == op.data
    &&& op2.required_signatures == op.required_signatures
    &&& op2.collected_signatures@ == op.collected_signatures@
    &&& op2.status == BftOperationStatus::Committed
}

/// `post` is `pre` with the element at `j` replaced and the rest kept.
pub open spec fn ops_replaced_at(
    pre: Seq<BftOperation>,
    post: Seq<BftOperation>,
    j: int,
) -> bool {
    &&& post.len() == pre.len()
    &&& forall|k: int| 0 <= k < pre.len() && k != j ==> post[k] == pre[k]
}

/// `post_log` is `pre_log` with one broadcast message appended.
pub open spec fn log_extended(
    pre_log: Seq<BftMessage>,
    post_log: Seq<BftMessage>,
    mt: BftMessageType,
    view: u64,
    seqno: u64,
    sender: NodeId,
    now: u64,
    op_id: u64,
) -> bool {
    &&& post_log.len() == pre_log.len() + 1
    &&& post_log.drop_last() == pre_log
    &&& broadcast_message(post_log.last(), mt, view, seqno, sender, now, op_id)
}

/// What a `Propose` message does: when the referenced operation is
/// pending, this node signs it, the operation moves to `Collecting`,
/// and a `Prevote` is broadcast; otherwise nothing changes.
pub open spec fn propose_effect(
    pre_state: BftState,
    pre_log: Seq<BftMessage>,
    self_id: NodeId,
    post_state: BftState,
    post_log: Seq<BftMessage>,
    oid_opt: Option<u64>,
    now: u64,
) -> bool {
    match oid_opt {
        Option::Some(oid) => if has_op(pre_state.pending_operations@, oid) {
            let j = op_index(pre_state.pending_operations@, oid);
            &&& ops_replaced_at(pre_state.pending_operations@, post_state.pending_operations@, j)
            &&& signature_appended(
                pre_state.pending_operations@[j],
                post_state.pending_operations@[j],
                self_id,
                oid,
                now,
            )
            &&& log_extended(
                pre_log,
                post_log,
                BftMessageType::Prevote,
                pre_state.current_view,
                pre_state.current_sequence,
                self_id,
                now,
                oid,
            )
            &&& state_same_but_ops(pre_state, post_state)
        } else {
            post_state == pre_state && post_log == pre_log
        },
        Option::None => post_state == pre_state && post_log == pre_log,
    }
}

/// What a `Prevote` message does: when the referenced operation is
/// pending and has its quorum, a `Precommit` is broadcast; otherwise
/// nothing changes.
pub open spec fn prevote_effect(
    pre_state: BftState,
    pre_log: Seq<BftMessage>,
    self_id: NodeId,
    post_state: BftState,
    post_log: Seq<BftMessage>,
    oid_opt: Option<u64>,
    now: u64,
) -> bool {
    match oid_opt {
        Option::Some(oid) => if has_op(pre_state.pending_operations@, oid) && quorum_reached(
            pre_state.pending_operations@[op_index(pre_state.pending_operations@, oid)],
        ) {
            &&& post_state == pre_state
            &&& log_extended(
                pre_log,
                post_log,
                BftMessageType::Precommit,
                pre_state.current_view,
                pre_state.current_sequence,
                self_id,
                now,
                oid,
            )
        } else {
            post_state == pre_state && post_log == pre_log
        },
        Option::None => post_state == pre_state && post_log == pre_log,
    }
}

/// What a `Precommit` message does: when the referenced operation is
/// pending and has its quorum, it is marked `Committed`, its
/// identifier enters the committed log, the sequence advances, and a
/// `Commit` is broadcast; otherwise nothing changes.
pub open spec fn precommit_effect(
    pre_state: BftState,
    pre_log: Seq<BftMessage>,
    self_id: NodeId,
    post_state: BftState,
    post_log: Seq<BftMessage>,
    oid_opt: Option<u64>,
    now: u64,
) -> bool {
    match oid_opt {
        Option::Some(oid) => if has_op(pre_state.pending_operations@, oid) && quorum_reached(
            pre_state.pending_operations@[op_index(pre_state.pending_operations@, oid)],
        ) {
            let j = op_index(pre_state.pending_operations@, oid);
            &&& ops_replaced_at(pre_state.pending_operations@, post_state.pending_operations@, j)
            &&& marked_committed(
                pre_state.pending_operations@[j],
                post_state.pending_operations@[j],
            )
            &&& post_state.committed_operations@ == pre_state.committed_operations@.push(oid)
            &&& post_state.current_sequence == pre_state.current_sequence + 1
            &&& post_state.current_view == pre_state.current_view
            &&& post_state.active_nodes@ == pre_state.active_nodes@
            &&& post_state.byzantine_nodes@ == pre_state.byzantine_nodes@
            &&& post_state.last_checkpoint == pre_state.last_checkpoint
            &&& log_extended(
                pre_log,
                post_log,
                BftMessageType::Commit,
                pre_state.current_view,
                post_state.current_sequence,
                self_id,
                now,
                oid,
            )
        } else {
            post_state == pre_state && post_log == pre_log
        },
        Option::None => post_state == pre_state && post_log == pre_log,
    }
}

/// What a `ViewChange` message does: the engine adopts the message's
/// view when it is greater than the current one.
pub open spec fn view_change_effect(pre_state: BftState, post_state: BftState, m_view: u64) -> bool {
    &&& post_state.current_view == if m_view > pre_state.current_view {
        m_view
    } else {
        pre_state.current_view
    }
    &&& post_state.current_sequence == pre_state.current_sequence
    &&& post_state.active_nodes@ == pre_state.active_nodes@
    &&& post_state.pending_operations@ == pre_state.pending_operations@
    &&& post_state.committed_operations@ == pre_state.committed_operations@
    &&& post_state.byzantine_nodes@ == pre_state.byzantine_nodes@
    &&& post_state.last_checkpoint == pre_state.last_checkpoint
}

/// What a `Heartbeat` message does: the sender joins the active
/// roster if it was not already on it.
pub open spec fn heartbeat_effect(pre_state: BftState, post_state: BftState, sender: NodeId) -> bool {
    &&& post_state.active_nodes@ == if seq_contains_node(pre_state.active_nodes@, sender) {
        pre_state.active_nodes@
    } else {
        pre_state.active_nodes@.push(sender)
    }
    &&& post_state.current_view == pre_state.current_view
    &&& post_state.current_sequence == pre_state.current_sequence
    &&& post_state.pending_operations@ == pre_state.pending_operations@
    &&& post_state.committed_operations@ == pre_state.committed_operations@
    &&& post_state.byzantine_nodes@ == pre_state.byzantine_nodes@
    &&& post_state.last_checkpoint == pre_state.last_checkpoint
}

/// What an accepted message does to the engine, its own logging
/// included: the incoming message joins the log, and the effect of
/// its kind follows.
pub open spec fn dispatch_post(
    pre: BftConsensus,
    post: BftConsensus,
    m: BftMessage,
    now: u64,
) -> bool {
    let base_log = pre.message_log@.push(m);
    match m.message_type {
        BftMessageType::Propose => propose_effect(
            pre.state,
            base_log,
            pre.self_id,
            post.state,
            post.message_log@,
            payload_op_id(m),
            now,
        ),
        BftMessageType::Prevote => prevote_effect(
            pre.state,
            base_log,
            pre.self_id,
            post.state,
            post.message_log@,
            payload_op_id(m),
            now,
        ),
        BftMessageType::Precommit => precommit_effect(
            pre.state,
            base_log,
            pre.self_id,
            post.state,
            post.message_log@,
            payload_op_id(m),
            now,
        ),
        BftMessageType::Commit => post.state == pre.state && post.message_log@ == base_log,
        BftMessageType::ViewChange => view_change_effect(pre.state, post.state, m.view)
            && post.message_log@ == base_log,
        BftMessageType::Heartbeat => heartbeat_effect(pre.state, post.state, m.sender)
            && post.message_log@ == base_log,
    }
}

/// A snapshot of committed consensus state, for crash recovery or
/// state transfer to a newly joining node.  Pending operations are
/// not checkpointed: only committed history is.
#[derive(Clone, Debug)]
pub struct BftCheckpoint {
    pub view: u64,
    pub sequence: u64,
    pub committed_ops: Vec<u64>,
    pub active_nodes: Vec<NodeId>,
    pub timestamp: u64,
}

/// The big-endian concatenation of a sequence of words.
pub open spec fn u64s_bytes(xs: Seq<u64>) -> Seq<u8>
    decreases xs.len(),
{
    if xs.len() == 0 {
        Seq::empty()
    } else {
        u64s_bytes(xs.drop_last()) + u64_be_bytes(xs.last())
    }
}

/// The big-endian concatenation of a sequence of node identifiers.
pub open spec fn node_ids_bytes(xs: Seq<NodeId>) -> Seq<u8>
    decreases xs.len(),
{
    if xs.len() == 0 {
        Seq::empty()
    } else {
        node_ids_bytes(xs.drop_last()) + u64_be_bytes(xs.last().id)
    }
}

/// The checkpoint wire format: view, sequence and timestamp words,
/// then the committed identifiers and the active roster, each as a
/// length-prefixed list of words.
pub open spec fn checkpoint_bytes(
    view: u64,
    seqno: u64,
    committed: Seq<u64>,
    active: Seq<NodeId>,
    ts: u64,
) -> Seq<u8> {
    u64_be_bytes(view) + u64_be_bytes(seqno) + u64_be_bytes(ts) + u64_be_bytes(
        committed.len() as u64,
    ) + u64s_bytes(committed) + u64_be_bytes(active.len() as u64) + node_ids_bytes(active)
}

/// Whether `m` matches one of the Byzantine behaviour patterns
/// against the engine's log and counters: equivocation, flooding, or
/// a view or sequence jump.
pub open spec fn byzantine_pattern(pre: BftConsensus, m: BftMessage, now: u64) -> bool {
    ||| equivocates(pre.message_log@, m)
    ||| floods(pre.message_log@, m, now)
    ||| out_of_order(pre.state, m)
}

/// Finds the index of the pending operation with identifier `id`.
fn find_op(ops: &Vec<BftOperation>, id: u64) -> (r: Option<usize>)
    ensures
        match r {
            Option::Some(j) => j < ops@.len() && ops@[j as int].operation_id == id,
            Option::None => !has_op(ops@, id),
        },
{
    let mut i: usize = 0;
    while i < ops.len()
        invariant
            0 <= i <= ops@.len(),
            forall|k: int| 0 <= k < i ==> ops@[k].operation_id != id,
        decreases ops@.len() - i,
    {
        if ops[i].operation_id == id {
            return Some(i);
        }
        i += 1;
    }
    None
}

/// With unique identifiers, a found index is the `op_index`.
proof fn lemma_found_is_op_index(ops: Seq<BftOperation>, id: u64, j: int)
    requires
        ops_unique(ops),
        0 <= j < ops.len(),
        ops[j].operation_id == id,
    ensures
        has_op(ops, id),
        op_index(ops, id) == j,
{
    assert(has_op(ops, id));
    let i0 = op_index(ops, id);
    assert(0 <= i0 < ops.len() && ops[i0].operation_id == id);
    if i0 < j {
        assert(ops[i0].operation_id != ops[j].operation_id);
    } else if j < i0 {
        assert(ops[j].operation_id != ops[i0].operation_id);
    }
}

impl BftConsensus {
    /// Whether `m` matches one of the Byzantine behaviour patterns.
    pub fn detect_byzantine_behavior(&self, message: &BftMessage, now: u64) -> (r: bool)
        ensures
            r == byzantine_pattern(*self, *message, now),
    {
        // Equivocation: a logged conflicting message.
        let mut i: usize = 0;
        let mut equivocated = false;
        while i < self.message_log.len()
            invariant
                0 <= i <= self.message_log@.len(),
                equivocated == (exists|k: int|
                    0 <= k < i && conflicts(#[trigger] self.message_log@[k], *message)),
            decreases self.message_log@.len() - i,
        {
            let logged = &self.message_log[i];
            if logged.sender.id == message.sender.id && logged.view == message.view
                && logged.sequence == message.sequence && logged.message_type
                == message.message_type && !crate::bytes::bytes_eq(
                &logged.data_hash,
                &message.data_hash,
            ) {
                proof {
                    assert(conflicts(self.message_log@[i as int], *message));
                }
                equivocated = true;
            }
            i += 1;
        }
        if equivocated {
            return true;
        }
        // Flooding: too many recent messages from the sender.
        let mut j: usize = 0;
        let mut count: u64 = 0;
        while j < self.message_log.len()
            invariant
                0 <= j <= self.message_log@.len(),
                count <= j,
                count as int == recent_count(
                    self.message_log@.take(j as int),
                    message.sender,
                    now,
                ),
            decreases self.message_log@.len() - j,
        {
            proof {
                assert(self.message_log@.take(j + 1).drop_last() == self.message_log@.take(
                    j as int,
                ));
                assert(self.message_log@.take(j + 1).last() == self.message_log@[j as int]);
            }
            let logged = &self.message_log[j];
            if logged.sender.id == message.sender.id && (now <= logged.timestamp || now
                - logged.timestamp < FLOOD_WINDOW_MS) {
                count += 1;
            }
            j += 1;
        }
        proof {
            assert(self.message_log@.take(self.message_log@.len() as int) == self.message_log@);
        }
        if count > FLOOD_LIMIT {
            return true;
        }
        // Ordering: a view or sequence jump past the next slot.
        let view_jump = message.view > self.state.current_view && message.view
            - self.state.current_view > 1;
        let seq_jump = message.sequence > self.state.current_sequence && message.sequence
            - self.state.current_sequence > 1;
        view_jump || seq_jump
    }

    /// Handles a logged `Propose`: signs the referenced pending
    /// operation, moves it to `Collecting` and broadcasts a
    /// `Prevote`.
    fn handle_propose(&mut self, oid_opt: Option<u64>, now: u64) -> (r: Result<(), BftError>)
        requires
            old(self).wf(),
        ensures
            final(self).wf(),
            r == Result::<(), BftError>::Ok(()),
            propose_effect(
                old(self).state,
                old(self).message_log@,
                old(self).self_id,
                final(self).state,
                final(self).message_log@,
                oid_opt,
                now,
            ),
            final(self).self_id == old(self).self_id,
            final(self).next_operation_id == old(self).next_operation_id,
    {
        let oid = match oid_opt {
            Some(oid) => oid,
            None => {
                return Ok(());
            },
        };
        let j = match find_op(&self.state.pending_operations, oid) {
            Some(j) => j,
            None => {
                return Ok(());
            },
        };
        proof {
            lemma_found_is_op_index(self.state.pending_operations@, oid, j as int);
        }
        let signature_bytes = self.sign_operation(oid);
        let signature = BftSignature { signer: self.self_id, signature: signature_bytes, timestamp: now };
        let mut op = self.state.pending_operations.remove(j);
        let ghost sigs0 = op.collected_signatures@;
        op.collected_signatures.push(signature);
        proof {
            assert(op.collected_signatures@.drop_last() =~= sigs0);
        }
        op.status = BftOperationStatus::Collecting;
        self.state.pending_operations.insert(j, op);
        proof {
            assert(self.state.pending_operations@ =~= old(
                self,
            ).state.pending_operations@.update(
                j as int,
                self.state.pending_operations@[j as int],
            ));
        }
        self.broadcast(BftMessageType::Prevote, oid, now);
        proof {
            assert(self.message_log@.drop_last() =~= old(self).message_log@);
        }
        Ok(())
    }

    /// Handles a logged `Prevote`: broadcasts a `Precommit` once the
    /// referenced operation has its quorum.
    fn handle_prevote(&mut self, oid_opt: Option<u64>, now: u64) -> (r: Result<(), BftError>)
        requires
            old(self).wf(),
        ensures
            final(self).wf(),
            r == Result::<(), BftError>::Ok(()),
            prevote_effect(
                old(self).state,
                old(self).message_log@,
                old(self).self_id,
                final(self).state,
                final(self).message_log@,
                oid_opt,
                now,
            ),
            final(self).self_id == old(self).self_id,
            final(self).next_operation_id == old(self).next_operation_id,
    {
        let oid = match oid_opt {
            Some(oid) => oid,
            None => {
                return Ok(());
            },
        };
        let j = match find_op(&self.state.pending_operations, oid) {
            Some(j) => j,
            None => {
                return Ok(());
            },
        };
        proof {
            lemma_found_is_op_index(self.state.pending_operations@, oid, j as int);
        }
        let quorum = {
            let op = &self.state.pending_operations[j];
            op.collected_signatures.len() as u64 >= op.required_signatures
        };
        if quorum {
            self.broadcast(BftMessageType::Precommit, oid, now);
            proof {
                assert(self.message_log@.drop_last() =~= old(self).message_log@);
            }
        }
        Ok(())
    }

    /// Handles a logged `Precommit`: once the referenced operation
    /// has its quorum, commits it, advances the sequence and
    /// broadcasts a `Commit`.
    fn handle_precommit(&mut self, oid_opt: Option<u64>, now: u64) -> (r: Result<(), BftError>)
        requires
            old(self).wf(),
            old(self).state.current_sequence < u64::MAX,
        ensures
            final(self).wf(),
            r == Result::<(), BftError>::Ok(()),
            precommit_effect(
                old(self).state,
                old(self).message_log@,
                old(self).self_id,
                final(self).state,
                final(self).message_log@,
                oid_opt,
                now,
            ),
            final(self).self_id == old(self).self_id,
            final(self).next_operation_id == old(self).next_operation_id,
    {
        let oid = match oid_opt {
            Some(oid) => oid,
            None => {
                return Ok(());
            },
        };
        let j = match find_op(&self.state.pending_operations, oid) {
            Some(j) => j,
            None => {
                return Ok(());
            },
        };
        proof {
            lemma_found_is_op_index(self.state.pending_operations@, oid, j as int);
        }
        let quorum = {
            let op = &self.state.pending_operations[j];
            op.collected_signatures.len() as u64 >= op.required_signatures
        };
        if !quorum {
            return Ok(());
        }
        let mut op = self.state.pending_operations.remove(j);
        op.status = BftOperationStatus::Committed;
        self.state.pending_operations.insert(j, op);
        proof {
            assert(self.state.pending_operations@ =~= old(
                self,
            ).state.pending_operations@.update(
                j as int,
                self.state.pending_operations@[j as int],
            ));
        }
        self.state.committed_operations.push(oid);
        self.state.current_sequence = self.state.current_sequence + 1;
        self.broadcast(BftMessageType::Commit, oid, now);
        proof {
            assert(self.message_log@.drop_last() =~= old(self).message_log@);
        }
        Ok(())
    }

    /// Handles a logged `ViewChange`: adopts the higher view.
    fn handle_view_change(&mut self, m_view: u64) -> (r: Result<(), BftError>)
        requires
            old(self).wf(),
        ensures
            final(self).wf(),
            r == Result::<(), BftError>::Ok(()),
            view_change_effect(old(self).state, final(self).state, m_view),
            final(self).message_log@ == old(self).message_log@,
            final(self).self_id == old(self).self_id,
            final(self).next_operation_id == old(self).next_operation_id,
    {
        if m_view > self.state.current_view {
            self.state.current_view = m_view;
        }
        Ok(())
    }

    /// Handles a logged `Heartbeat`: records the sender as live.
    fn handle_heartbeat(&mut self, sender: NodeId) -> (r: Result<(), BftError>)
        requires
            old(self).wf(),
            !seq_contains_node(old(self).state.byzantine_nodes@, sender),
        ensures
            final(self).wf(),
            r == Result::<(), BftError>::Ok(()),
            heartbeat_effect(old(self).state, final(self).state, sender),
            final(self).message_log@ == old(self).message_log@,
            final(self).self_id == old(self).self_id,
            final(self).next_operation_id == old(self).next_operation_id,
    {
        if !nodes_contain(&self.state.active_nodes, sender) {
            self.state.active_nodes.push(sender);
            proof {
                assert(self.state.active_nodes@.last() == sender);
            }
        }
        Ok(())
    }

    /// Processes an incoming message.
    ///
    /// A message from a flagged sender is rejected untouched.  One
    /// that fails the authenticity check — empty signature, zero
    /// timestamp or empty hash — is rejected and its sender flagged.
    /// One that matches a Byzantine pattern — equivocation against
    /// the log, flooding, or a view/sequence jump — is rejected and
    /// its sender flagged.  In particular, a second message from one
    /// sender with the same view, sequence and kind but a different
    /// hash is rejected and moves the sender from the active roster
    /// into the Byzantine set.  Any other message is appended to the
    /// log and dispatched by its kind.
    pub fn process_message(&mut self, message: BftMessage, now: u64) -> (r: Result<(), BftError>)
        requires
            old(self).wf(),
            old(self).state.current_sequence < u64::MAX,
        ensures
            final(self).wf(),
            final(self).self_id == old(self).self_id,
            final(self).next_operation_id == old(self).next_operation_id,
            seq_contains_node(old(self).state.byzantine_nodes@, message.sender) ==> r
                == Result::<(), BftError>::Err(BftError::ByzantineRejection) && *final(self)
                == *old(self),
            !seq_contains_node(old(self).state.byzantine_nodes@, message.sender)
                && !msg_authentic(message) ==> r == Result::<(), BftError>::Err(
                BftError::ValidationError,
            ) && byzantine_flagged(old(self).state, final(self).state, message.sender)
                && final(self).message_log@ == old(self).message_log@,
            !seq_contains_node(old(self).state.byzantine_nodes@, message.sender)
                && msg_authentic(message) && byzantine_pattern(*old(self), message, now) ==> r
                == Result::<(), BftError>::Err(BftError::ByzantineRejection) && byzantine_flagged(
                old(self).state,
                final(self).state,
                message.sender,
            ) && final(self).message_log@ == old(self).message_log@,
            !seq_contains_node(old(self).state.byzantine_nodes@, message.sender)
                && msg_authentic(message) && equivocates(old(self).message_log@, message) ==> r
                == Result::<(), BftError>::Err(BftError::ByzantineRejection) && seq_contains_node(
                final(self).state.byzantine_nodes@,
                message.sender,
            ) && !seq_contains_node(final(self).state.active_nodes@, message.sender),
            !seq_contains_node(old(self).state.byzantine_nodes@, message.sender)
                && msg_authentic(message) && !byzantine_pattern(*old(self), message, now) ==> r
                == Result::<(), BftError>::Ok(()) && dispatch_post(
                *old(self),
                *final(self),
                message,
                now,
            ),
    {
        if self.state.is_byzantine_node(&message.sender) {
            return Err(BftError::ByzantineRejection);
        }
        let authentic = message.signature.len() > 0 && message.timestamp > 0
            && message.data_hash.len() > 0;
        if !authentic {
            self.state.add_byzantine_flag(message.sender);
            return Err(BftError::ValidationError);
        }
        if self.detect_byzantine_behavior(&message, now) {
            self.state.add_byzantine_flag(message.sender);
            return Err(BftError::ByzantineRejection);
        }
        let mt = message.message_type;
        let sender = message.sender;
        let m_view = message.view;
        let oid_opt = if message.payload.len() == 8 {
            Some(u64_from_bytes(message.payload.as_slice()))
        } else {
            None
        };
        proof {
            assert(oid_opt == payload_op_id(message));
        }
        self.message_log.push(message);
        match mt {
            BftMessageType::Propose => self.handle_propose(oid_opt, now),
            BftMessageType::Prevote => self.handle_prevote(oid_opt, now),
            BftMessageType::Precommit => self.handle_precommit(oid_opt, now),
            BftMessageType::Commit => Ok(()),
            BftMessageType::ViewChange => self.handle_view_change(m_view),
            BftMessageType::Heartbeat => self.handle_heartbeat(sender),
        }
    }

    /// Serializes a snapshot of the committed state — view, sequence,
    /// committed operations and the active roster, stamped `now` —
    /// and records `now` as the time of the last checkpoint.
    pub fn create_checkpoint(&mut self, now: u64) -> (r: Result<Vec<u8>, BftError>)
        requires
            old(self).wf(),
        ensures
            final(self).wf(),
            r matches Ok(b) && b@ == checkpoint_bytes(
                old(self).state.current_view,
                old(self).state.current_sequence,
                old(self).state.committed_operations@,
                old(self).state.active_nodes@,
                now,
            ),
            final(self).state.last_checkpoint == now,
            final(self).state.current_view == old(self).state.current_view,
            final(self).state.current_sequence == old(self).state.current_sequence,
            final(self).state.active_nodes@ == old(self).state.active_nodes@,
            final(self).state.pending_operations@ == old(self).state.pending_operations@,
            final(self).state.committed_operations@ == old(self).state.committed_operations@,
            final(self).state.byzantine_nodes@ == old(self).state.byzantine_nodes@,
            final(self).message_log@ == old(self).message_log@,
            final(self).self_id == old(self).self_id,
            final(self).next_operation_id == old(self).next_operation_id,
    {
        let mut out: Vec<u8> = Vec::new();
        crate::bytes::push_u64_be(&mut out, self.state.current_view);
        crate::bytes::push_u64_be(&mut out, self.state.current_sequence);
        crate::bytes::push_u64_be(&mut out, now);
        let committed = &self.state.committed_operations;
        crate::bytes::push_u64_be(&mut out, committed.len() as u64);
        let ghost head = out@;
        let mut i: usize = 0;
        while i < committed.len()
            invariant
                0 <= i <= committed@.len(),
                out@ == head + u64s_bytes(committed@.take(i as int)),
            decreases committed@.len() - i,
        {
            proof {
                assert(committed@.take(i + 1).drop_last() == committed@.take(i as int));
                assert(committed@.take(i + 1).last() == committed@[i as int]);
            }
            crate::bytes::push_u64_be(&mut out, committed[i]);
            proof {
                assert(out@ =~= head + u64s_bytes(committed@.take(i + 1)));
            }
            i += 1;
        }
        proof {
            assert(committed@.take(committed@.len() as int) == committed@);
        }
        let active = &self.state.active_nodes;
        crate::bytes::push_u64_be(&mut out, active.len() as u64);
        let ghost mid = out@;
        let mut k: usize = 0;
        while k < active.len()
            invariant
                0 <= k <= active@.len(),
                out@ == mid + node_ids_bytes(active@.take(k as int)),
            decreases active@.len() - k,
        {
            proof {
                assert(active@.take(k + 1).drop_last() == active@.take(k as int));
                assert(active@.take(k + 1).last() == active@[k as int]);
            }
            crate::bytes::push_u64_be(&mut out, active[k].id);
            proof {
                assert(out@ =~= mid + node_ids_bytes(active@.take(k + 1)));
            }
            k += 1;
        }
        proof {
            assert(active@.take(active@.len() as int) == active@);
            assert(out@ =~= checkpoint_bytes(
                self.state.current_view,
                self.state.current_sequence,
                self.state.committed_operations@,
                self.state.active_nodes@,
                now,
            ));
        }
        self.state.last_checkpoint = now;
        Ok(out)
    }
}

} // verus!
