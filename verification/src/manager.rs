//! The system manager: aggregate health, the node-metrics map, the
//! active/Byzantine roster published to callers, and the bounded-retry
//! recovery queue.

use vstd::prelude::*;
use vstd::string::StringExecFns;

use crate::consensus::{fault_tolerance_of, required_signatures_of};
use crate::errors::{BftError, BftResult};
use crate::node::{
    lemma_remove_node_props, nodes_contain, nodes_remove, nodes_unique, remove_node_spec,
    seq_contains_node, NodeId,
};
use crate::storage::{
    has_key, key_index, keys_unique, lemma_found_is_key_index, lemma_upsert_others,
    lemma_upsert_props, upserted, upserted_value, BftIntegrityReport,
};
use crate::validate::str_eq;

verus! {

/// The health ledger of the whole system.
#[derive(Clone, Debug)]
pub struct BftSystemState {
    pub is_active: bool,
    pub consensus_rounds: u64,
    pub total_operations: u64,
    pub successful_operations: u64,
    pub failed_operations: u64,
    pub byzantine_detections: u64,
    pub recovery_operations: u64,
    pub last_health_check: u64,
    pub active_nodes: Vec<NodeId>,
    pub byzantine_nodes: Vec<NodeId>,
    pub system_health_score: u64,
}

/// The health score formula: the success rate in percent (one
/// hundred when nothing ran yet), less five points per Byzantine
/// detection and two per recovery, clamped to the unit percentage
/// range.
pub open spec fn health_score_of(total: u64, successful: u64, byz: u64, rec: u64) -> int {
    let rate = if total > 0 {
        (successful as int) * 100 / (total as int)
    } else {
        100
    };
    let raw = rate - 5 * (byz as int) - 2 * (rec as int);
    if raw < 0 {
        0
    } else if raw > 100 {
        100
    } else {
        raw
    }
}

impl BftSystemState {
    /// Roster well-formedness: no duplicates, and no node both
    /// active and Byzantine.
    pub open spec fn wf(&self) -> bool {
        &&& nodes_unique(self.active_nodes@)
        &&& nodes_unique(self.byzantine_nodes@)
        &&& forall|i: int|
            0 <= i < self.active_nodes@.len() ==> !seq_contains_node(
                self.byzantine_nodes@,
                #[trigger] self.active_nodes@[i],
            )
    }

    /// A fresh ledger: active, nothing counted, full health.
    pub fn new(now: u64) -> (r: BftSystemState)
        ensures
            r.wf(),
            r.is_active,
            r.consensus_rounds == 0,
            r.total_operations == 0,
            r.successful_operations == 0,
            r.failed_operations == 0,
            r.byzantine_detections == 0,
            r.recovery_operations == 0,
            r.last_health_check == now,
            r.active_nodes@ == Seq::<NodeId>::empty(),
            r.byzantine_nodes@ == Seq::<NodeId>::empty(),
            r.system_health_score == 100,
    {
        BftSystemState {
            is_active: true,
            consensus_rounds: 0,
            total_operations: 0,
            successful_operations: 0,
            failed_operations: 0,
            byzantine_detections: 0,
            recovery_operations: 0,
            last_health_check: now,
            active_nodes: Vec::new(),
            byzantine_nodes: Vec::new(),
            system_health_score: 100,
        }
    }

    /// Recomputes the health score from the counters.
    pub fn update_health_score(&mut self)
        ensures
            final(self).system_health_score as int == health_score_of(
                old(self).total_operations,
                old(self).successful_operations,
                old(self).byzantine_detections,
                old(self).recovery_operations,
            ),
            final(self).is_active == old(self).is_active,
            final(self).consensus_rounds == old(self).consensus_rounds,
            final(self).total_operations == old(self).total_operations,
            final(self).successful_operations == old(self).successful_operations,
            final(self).failed_operations == old(self).failed_operations,
            final(self).byzantine_detections == old(self).byzantine_detections,
            final(self).recovery_operations == old(self).recovery_operations,
            final(self).last_health_check == old(self).last_health_check,
            final(self).active_nodes@ == old(self).active_nodes@,
            final(self).byzantine_nodes@ == old(self).byzantine_nodes@,
    {
        let rate: i128 = if self.total_operations > 0 {
            let r128 = (self.successful_operations as u128) * 100 / (self.total_operations
                as u128);
            proof {
                assert(r128 <= u64::MAX as u128 * 100);
            }
            r128 as i128
        } else {
            100
        };
        let raw: i128 = rate - 5 * (self.byzantine_detections as i128) - 2
            * (self.recovery_operations as i128);
        let score: i128 = if raw < 0 {
            0
        } else if raw > 100 {
            100
        } else {
            raw
        };
        self.system_health_score = score as u64;
    }
}

/// Per-entry corruption bookkeeping.
#[derive(Clone, Debug)]
pub struct BftCorruptionInfo {
    pub entry_id: String,
    pub corruption_type: String,
    pub detected_at: u64,
    pub recovery_attempts: u32,
    pub last_recovery_attempt: u64,
    pub is_recoverable: bool,
}

/// The bounded-retry recovery subsystem: the corruption map, the
/// deduplicated first-in-first-out queue of entries awaiting
/// recovery, and the per-entry attempt counters.
#[derive(Clone, Debug)]
pub struct BftRecoverySystem {
    pub corrupted_entries: Vec<(String, BftCorruptionInfo)>,
    pub recovery_queue: Vec<String>,
    pub auto_recovery_enabled: bool,
    pub recovery_attempts: Vec<(String, u32)>,
    pub max_recovery_attempts: u32,
}

/// Whether `q` holds a string with view `id`.
pub open spec fn queue_has(q: Seq<String>, id: Seq<char>) -> bool {
    exists|i: int| 0 <= i < q.len() && q[i]@ == id
}

/// Whether `q` holds no string view twice.
pub open spec fn queue_unique(q: Seq<String>) -> bool {
    forall|i: int, j: int| 0 <= i < j < q.len() ==> q[i]@ != q[j]@
}

/// `q` with every string of view `id` removed, order kept.
pub open spec fn remove_string_spec(q: Seq<String>, id: Seq<char>) -> Seq<String>
    decreases q.len(),
{
    if q.len() == 0 {
        Seq::empty()
    } else {
        let rest = remove_string_spec(q.drop_last(), id);
        if q.last()@ == id {
            rest
        } else {
            rest.push(q.last())
        }
    }
}

/// What string removal leaves behind.
pub proof fn lemma_remove_string_props(pre: Seq<String>, id: Seq<char>)
    ensures
        !queue_has(remove_string_spec(pre, id), id),
        forall|id2: Seq<char>|
            id2 != id ==> #[trigger] queue_has(remove_string_spec(pre, id), id2) == queue_has(
                pre,
                id2,
            ),
        queue_unique(pre) ==> queue_unique(remove_string_spec(pre, id)),
    decreases pre.len(),
{
    let post = remove_string_spec(pre, id);
    if pre.len() == 0 {
    } else {
        let head = pre.drop_last();
        let last = pre.last();
        lemma_remove_string_props(head, id);
        let rest = remove_string_spec(head, id);
        assert(queue_unique(pre) ==> queue_unique(head));
        assert forall|i: int| 0 <= i < post.len() implies (#[trigger] post[i])@ != id by {
            if last@ == id || i < post.len() - 1 {
                assert(post[i] == rest[i]);
            }
        }
        assert forall|id2: Seq<char>| id2 != id implies #[trigger] queue_has(post, id2)
            == queue_has(pre, id2) by {
            if queue_has(post, id2) {
                let i = choose|i: int| 0 <= i < post.len() && post[i]@ == id2;
                if last@ != id && i == post.len() - 1 {
                    assert(pre[pre.len() - 1]@ == id2);
                } else {
                    assert(post[i] == rest[i]);
                    assert(queue_has(rest, id2));
                    assert(queue_has(head, id2));
                    let k = choose|k: int| 0 <= k < head.len() && head[k]@ == id2;
                    assert(pre[k]@ == id2);
                }
            }
            if queue_has(pre, id2) {
                let k = choose|k: int| 0 <= k < pre.len() && pre[k]@ == id2;
                if k < pre.len() - 1 {
                    assert(head[k]@ == id2);
                    assert(queue_has(head, id2));
                    assert(queue_has(rest, id2));
                    let m = choose|m: int| 0 <= m < rest.len() && rest[m]@ == id2;
                    assert(post[m]@ == id2);
                } else {
                    assert(post[post.len() - 1]@ == id2);
                }
            }
        }
        if queue_unique(pre) {
            assert forall|i: int, j: int| 0 <= i < j < post.len() implies post[i]@ != post[j]@ by {
                if last@ != id && j == post.len() - 1 {
                    assert(post[i] == rest[i]);
                    assert(queue_has(head, rest[i]@)) by {
                        assert(rest[i]@ != id || true);
                        assert(queue_has(rest, rest[i]@));
                        if rest[i]@ == id {
                            assert(!queue_has(rest, id));
                        }
                        lemma_remove_string_props(head, id);
                    }
                    let k = choose|k: int| 0 <= k < head.len() && head[k]@ == rest[i]@;
                    assert(pre[k]@ == rest[i]@);
                    assert(pre[pre.len() - 1]@ == last@);
                } else {
                    assert(post[i] == rest[i] && post[j] == rest[j]);
                }
            }
        }
    }
}

/// Removes every string of view `id` from `q`, order kept.
fn strings_remove(q: &mut Vec<String>, id: &str)
    ensures
        final(q)@ == remove_string_spec(old(q)@, id@),
{
    let ghost orig = q@;
    let mut out: Vec<String> = Vec::new();
    let mut i: usize = 0;
    while i < q.len()
        invariant
            0 <= i <= q@.len(),
            q@ == orig,
            out@ == remove_string_spec(orig.take(i as int), id@),
        decreases q@.len() - i,
    {
        proof {
            assert(orig.take(i + 1).drop_last() == orig.take(i as int));
            assert(orig.take(i + 1).last() == orig[i as int]);
        }
        if !str_eq(q[i].as_str(), id) {
            out.push(q[i].clone());
        }
        i += 1;
    }
    proof {
        assert(orig.take(orig.len() as int) == orig);
    }
    *q = out;
}

/// Whether `q` holds a string with view `id@`.
fn queue_contains(q: &Vec<String>, id: &str) -> (r: bool)
    ensures
        r == queue_has(q@, id@),
{
    let mut i: usize = 0;
    while i < q.len()
        invariant
            0 <= i <= q@.len(),
            forall|k: int| 0 <= k < i ==> q@[k]@ != id@,
        decreases q@.len() - i,
    {
        if str_eq(q[i].as_str(), id) {
            return true;
        }
        i += 1;
    }
    false
}

/// Finds the index of `key` in an association list.
fn find_assoc<V>(list: &Vec<(String, V)>, key: &str) -> (r: Option<usize>)
    ensures
        match r {
            Option::Some(j) => j < list@.len() && list@[j as int].0@ == key@,
            Option::None => !has_key(list@, key@),
        },
{
    let mut i: usize = 0;
    while i < list.len()
        invariant
            0 <= i <= list@.len(),
            forall|k: int| 0 <= k < i ==> list@[k].0@ != key@,
        decreases list@.len() - i,
    {
        if str_eq(list[i].0.as_str(), key) {
            return Some(i);
        }
        i += 1;
    }
    None
}

/// Replaces or appends the association for `key`.
fn upsert_assoc<V>(list: &mut Vec<(String, V)>, key: String, value: V)
    requires
        keys_unique(old(list)@),
    ensures
        keys_unique(final(list)@),
        upserted(old(list)@, final(list)@, key@),
        upserted_value(old(list)@, final(list)@, key@) == value,
        has_key(final(list)@, key@),
        final(list)@[key_index(final(list)@, key@)].1 == value,
{
    let found = find_assoc(list, key.as_str());
    match found {
        Some(j) => {
            proof {
                lemma_found_is_key_index(list@, key@, j as int);
            }
            let _ = list.remove(j);
            list.insert(j, (key, value));
            proof {
                assert(list@ =~= old(list)@.update(j as int, list@[j as int]));
                lemma_upsert_props(old(list)@, list@, key@);
            }
        },
        None => {
            list.push((key, value));
            proof {
                assert(list@.drop_last() =~= old(list)@);
                lemma_upsert_props(old(list)@, list@, key@);
            }
        },
    }
}

/// Removing the association at `key`'s index keeps the others, their
/// values, and key uniqueness.
proof fn lemma_assoc_remove_others<V>(pre: Seq<(String, V)>, k: Seq<char>)
    requires
        keys_unique(pre),
        has_key(pre, k),
    ensures
        keys_unique(pre.remove(key_index(pre, k))),
        !has_key(pre.remove(key_index(pre, k)), k),
        forall|k2: Seq<char>|
            k2 != k ==> #[trigger] has_key(pre.remove(key_index(pre, k)), k2) == has_key(pre, k2),
        forall|k2: Seq<char>|
            k2 != k && has_key(pre, k2) ==> #[trigger] pre.remove(key_index(pre, k))[key_index(
                pre.remove(key_index(pre, k)),
                k2,
            )].1 == pre[key_index(pre, k2)].1,
{
    let j = key_index(pre, k);
    assert(0 <= j < pre.len() && pre[j].0@ == k);
    let post = pre.remove(j);
    assert forall|a: int, b: int| 0 <= a < b < post.len() implies post[a].0@ != post[b].0@ by {
        if a < j && b < j {
        } else if a < j {
            assert(post[b] == pre[b + 1]);
        } else {
            assert(post[a] == pre[a + 1]);
            assert(post[b] == pre[b + 1]);
        }
    }
    assert forall|i: int| 0 <= i < post.len() implies post[i].0@ != k by {
        if i < j {
            assert(post[i] == pre[i]);
        } else {
            assert(post[i] == pre[i + 1]);
        }
    }
    assert forall|k2: Seq<char>| k2 != k implies #[trigger] has_key(post, k2) == has_key(
        pre,
        k2,
    ) by {
        if has_key(post, k2) {
            let i = choose|i: int| 0 <= i < post.len() && post[i].0@ == k2;
            if i < j {
                assert(pre[i].0@ == k2);
            } else {
                assert(pre[i + 1].0@ == k2);
            }
        }
        if has_key(pre, k2) {
            let i = choose|i: int| 0 <= i < pre.len() && pre[i].0@ == k2;
            if i < j {
                assert(post[i].0@ == k2);
            } else if i > j {
                assert(post[i - 1].0@ == k2);
            }
        }
    }
    assert forall|k2: Seq<char>| k2 != k && has_key(pre, k2) implies #[trigger] post[key_index(
        post,
        k2,
    )].1 == pre[key_index(pre, k2)].1 by {
        let i = key_index(pre, k2);
        assert(0 <= i < pre.len() && pre[i].0@ == k2);
        if i < j {
            assert(post[i] == pre[i]);
            lemma_found_is_key_index(post, k2, i);
        } else {
            assert(post[i - 1] == pre[i]);
            lemma_found_is_key_index(post, k2, i - 1);
        }
    }
}

/// The number of attempts recorded for `id` — zero when none.
pub open spec fn attempts_of(rs: BftRecoverySystem, id: Seq<char>) -> int {
    if has_key(rs.recovery_attempts@, id) {
        rs.recovery_attempts@[key_index(rs.recovery_attempts@, id)].1 as int
    } else {
        0
    }
}

/// The corruption record kept for `id`, when one exists.
pub open spec fn corruption_of(rs: BftRecoverySystem, id: Seq<char>) -> Option<BftCorruptionInfo> {
    if has_key(rs.corrupted_entries@, id) {
        Some(rs.corrupted_entries@[key_index(rs.corrupted_entries@, id)].1)
    } else {
        None
    }
}

/// Whether one attempt on `id` would succeed: the counter is below
/// the cap, and the incremented counter is still within the two
/// tries the simulated recovery grants.
pub open spec fn attempt_outcome(rs: BftRecoverySystem, id: Seq<char>) -> bool {
    attempts_of(rs, id) < rs.max_recovery_attempts && attempts_of(rs, id) + 1 <= 2
}

/// Keys other than the attempted one see no change.
pub open spec fn recovery_untouched_key(
    pre: BftRecoverySystem,
    post: BftRecoverySystem,
    id2: Seq<char>,
) -> bool {
    &&& attempts_of(post, id2) == attempts_of(pre, id2)
    &&& corruption_of(post, id2) == corruption_of(pre, id2)
    &&& queue_has(post.recovery_queue@, id2) == queue_has(pre.recovery_queue@, id2)
}

/// The corruption record after a failed attempt: the counter and the
/// attempt stamp move, everything else stays.
pub open spec fn corruption_info_bumped(
    c0: BftCorruptionInfo,
    c: BftCorruptionInfo,
    a: int,
    now: u64,
) -> bool {
    &&& c.entry_id@ == c0.entry_id@
    &&& c.corruption_type@ == c0.corruption_type@
    &&& c.detected_at == c0.detected_at
    &&& c.recovery_attempts == a
    &&& c.last_recovery_attempt == now
    &&& c.is_recoverable == c0.is_recoverable
}

/// What one attempt on `id` does: nothing at the cap; at success the
/// entry leaves the map, the queue and the counters; at failure the
/// counter and the record's stamps move on.
pub open spec fn attempt_transition(
    pre: BftRecoverySystem,
    post: BftRecoverySystem,
    id: Seq<char>,
    now: u64,
) -> bool {
    let a0 = attempts_of(pre, id);
    &&& post.max_recovery_attempts == pre.max_recovery_attempts
    &&& post.auto_recovery_enabled == pre.auto_recovery_enabled
    &&& forall|id2: Seq<char>| id2 != id ==> #[trigger] recovery_untouched_key(pre, post, id2)
    &&& if a0 >= pre.max_recovery_attempts {
        post == pre
    } else if a0 + 1 <= 2 {
        &&& corruption_of(post, id) is None
        &&& !queue_has(post.recovery_queue@, id)
        &&& attempts_of(post, id) == 0
        &&& !has_key(post.recovery_attempts@, id)
    } else {
        &&& attempts_of(post, id) == a0 + 1
        &&& queue_has(post.recovery_queue@, id) == queue_has(pre.recovery_queue@, id)
        &&& match (corruption_of(pre, id), corruption_of(post, id)) {
            (Some(c0), Some(c)) => corruption_info_bumped(c0, c, a0 + 1, now),
            (None, None) => true,
            _ => false,
        }
    }
}

impl BftRecoverySystem {
    /// Well-formedness: unique keys throughout, and a deduplicated
    /// queue.
    pub open spec fn wf(&self) -> bool {
        &&& keys_unique(self.corrupted_entries@)
        &&& keys_unique(self.recovery_attempts@)
        &&& queue_unique(self.recovery_queue@)
    }

    /// A fresh recovery subsystem: empty, automatic recovery on, and
    /// three attempts per entry.
    pub fn new() -> (r: BftRecoverySystem)
        ensures
            r.wf(),
            r.corrupted_entries@ == Seq::<(String, BftCorruptionInfo)>::empty(),
            r.recovery_queue@ == Seq::<String>::empty(),
            r.auto_recovery_enabled,
            r.recovery_attempts@ == Seq::<(String, u32)>::empty(),
            r.max_recovery_attempts == 3,
    {
        BftRecoverySystem {
            corrupted_entries: Vec::new(),
            recovery_queue: Vec::new(),
            auto_recovery_enabled: true,
            recovery_attempts: Vec::new(),
            max_recovery_attempts: 3,
        }
    }

    /// Records a corruption report for `entry_id`: a fresh record
    /// enters the corruption map (replacing an earlier one), and the
    /// identifier joins the recovery queue unless already waiting.
    pub fn report_corruption(&mut self, entry_id: String, corruption_type: String, now: u64) -> (r:
        Result<(), BftError>)
        requires
            old(self).wf(),
        ensures
            final(self).wf(),
            r == Result::<(), BftError>::Ok(()),
            corruption_of(*final(self), entry_id@) matches Some(c) && c.entry_id@ == entry_id@
                && c.corruption_type@ == corruption_type@ && c.detected_at == now
                && c.recovery_attempts == 0 && c.last_recovery_attempt == 0 && c.is_recoverable,
            queue_has(final(self).recovery_queue@, entry_id@),
            !queue_has(old(self).recovery_queue@, entry_id@) ==> final(self).recovery_queue@
                == old(self).recovery_queue@.push(
                final(self).recovery_queue@.last(),
            ) && final(self).recovery_queue@.last()@ == entry_id@,
            queue_has(old(self).recovery_queue@, entry_id@) ==> final(self).recovery_queue@ == old(
                self,
            ).recovery_queue@,
            forall|id2: Seq<char>|
                id2 != entry_id@ ==> #[trigger] recovery_untouched_key(
                    *old(self),
                    *final(self),
                    id2,
                ),
            final(self).recovery_attempts@ == old(self).recovery_attempts@,
            final(self).max_recovery_attempts == old(self).max_recovery_attempts,
            final(self).auto_recovery_enabled == old(self).auto_recovery_enabled,
    {
        let info = BftCorruptionInfo {
            entry_id: entry_id.clone(),
            corruption_type,
            detected_at: now,
            recovery_attempts: 0,
            last_recovery_attempt: 0,
            is_recoverable: true,
        };
        let ghost corrupted_pre = self.corrupted_entries@;
        upsert_assoc(&mut self.corrupted_entries, entry_id.clone(), info);
        proof {
            lemma_upsert_others(corrupted_pre, self.corrupted_entries@, entry_id@);
        }
        let enqueued = !queue_contains(&self.recovery_queue, entry_id.as_str());
        if enqueued {
            self.recovery_queue.push(entry_id);
            proof {
                assert(self.recovery_queue@[old(self).recovery_queue@.len() as int]@
                    == self.recovery_queue@.last()@);
            }
        }
        proof {
            assert forall|id2: Seq<char>|
                id2 != entry_id@ implies #[trigger] recovery_untouched_key(
                *old(self),
                *self,
                id2,
            ) by {
                if queue_has(old(self).recovery_queue@, id2) {
                    let i = choose|i: int|
                        0 <= i < old(self).recovery_queue@.len() && old(
                            self,
                        ).recovery_queue@[i]@ == id2;
                    assert(self.recovery_queue@[i]@ == id2);
                }
                if queue_has(self.recovery_queue@, id2) {
                    let i = choose|i: int|
                        0 <= i < self.recovery_queue@.len() && self.recovery_queue@[i]@ == id2;
                    if i < old(self).recovery_queue@.len() {
                        assert(old(self).recovery_queue@[i]@ == id2);
                    }
                }
            }
        }
        Ok(())
    }

    /// Attempts to recover `entry_id`.  Once the per-entry counter
    /// has reached `max_recovery_attempts`, no further attempt is
    /// made and the call reports "not recovered" with nothing
    /// changed; otherwise the counter advances, the corruption
    /// record is stamped, and on success the entry leaves the map,
    /// the queue and the counters.
    pub fn attempt_recovery(&mut self, entry_id: &str, now: u64) -> (r: Result<bool, BftError>)
        requires
            old(self).wf(),
        ensures
            final(self).wf(),
            r == Result::<bool, BftError>::Ok(attempt_outcome(*old(self), entry_id@)),
            attempt_transition(*old(self), *final(self), entry_id@, now),
            attempts_of(*old(self), entry_id@) >= old(self).max_recovery_attempts ==> *final(self)
                == *old(self),
    {
        let attempts: u32 = match find_assoc(&self.recovery_attempts, entry_id) {
            Some(j) => {
                proof {
                    lemma_found_is_key_index(self.recovery_attempts@, entry_id@, j as int);
                }
                self.recovery_attempts[j].1
            },
            None => 0,
        };
        if attempts >= self.max_recovery_attempts {
            return Ok(false);
        }
        let a = attempts + 1;
        let mut id_string = String::new();
        id_string.append(entry_id);
        let ghost attempts_pre = self.recovery_attempts@;
        upsert_assoc(&mut self.recovery_attempts, id_string.clone(), a);
        proof {
            lemma_upsert_others(attempts_pre, self.recovery_attempts@, entry_id@);
        }
        let ghost corr_pre = self.corrupted_entries@;
        match find_assoc(&self.corrupted_entries, entry_id) {
            Some(j) => {
                proof {
                    lemma_found_is_key_index(self.corrupted_entries@, entry_id@, j as int);
                }
                let pair = self.corrupted_entries.remove(j);
                let mut info = pair.1;
                info.recovery_attempts = a;
                info.last_recovery_attempt = now;
                self.corrupted_entries.insert(j, (pair.0, info));
                proof {
                    assert(self.corrupted_entries@ =~= corr_pre.update(
                        j as int,
                        self.corrupted_entries@[j as int],
                    ));
                    assert(crate::storage::upserted(corr_pre, self.corrupted_entries@, entry_id@));
                    lemma_upsert_props(corr_pre, self.corrupted_entries@, entry_id@);
                    lemma_upsert_others(corr_pre, self.corrupted_entries@, entry_id@);
                }
            },
            None => {},
        }
        let ghost mid = *self;
        let success = a <= 2;
        if success {
            let ghost corr_mid = self.corrupted_entries@;
            match find_assoc(&self.corrupted_entries, entry_id) {
                Some(j) => {
                    proof {
                        lemma_found_is_key_index(self.corrupted_entries@, entry_id@, j as int);
                    }
                    let _ = self.corrupted_entries.remove(j);
                    proof {
                        lemma_assoc_remove_others(corr_mid, entry_id@);
                    }
                },
                None => {},
            }
            let ghost queue_mid = self.recovery_queue@;
            strings_remove(&mut self.recovery_queue, entry_id);
            proof {
                lemma_remove_string_props(queue_mid, entry_id@);
            }
            let ghost att_mid = self.recovery_attempts@;
            match find_assoc(&self.recovery_attempts, entry_id) {
                Some(j) => {
                    proof {
                        lemma_found_is_key_index(self.recovery_attempts@, entry_id@, j as int);
                    }
                    let _ = self.recovery_attempts.remove(j);
                    proof {
                        lemma_assoc_remove_others(att_mid, entry_id@);
                    }
                },
                None => {},
            }
        }
        proof {
            assert forall|id2: Seq<char>|
                id2 != entry_id@ implies #[trigger] recovery_untouched_key(
                *old(self),
                *self,
                id2,
            ) by {
                assert(recovery_untouched_key(*old(self), mid, id2)) by {
                    assert(has_key(self.recovery_attempts@, id2) == has_key(
                        mid.recovery_attempts@,
                        id2,
                    ) || true);
                }
                assert(recovery_untouched_key(mid, *self, id2));
            }
        }
        Ok(success)
    }
}

/// Integer performance metrics kept per node; times are in
/// milliseconds and the uptime in whole percent.
#[derive(Clone, Copy, Debug)]
pub struct BftNodeMetrics {
    pub messages_sent: u64,
    pub messages_received: u64,
    pub operations_proposed: u64,
    pub operations_committed: u64,
    pub byzantine_flags: u64,
    pub response_time_avg: u64,
    pub uptime_percentage: u64,
}

/// The alert thresholds of the monitor.
#[derive(Clone, Copy, Debug)]
pub struct BftAlertThresholds {
    pub max_byzantine_flags: u64,
    pub min_uptime_percentage: u64,
    pub max_response_time: u64,
    pub max_message_rate: u64,
}

/// The node monitor: per-node metrics and the thresholds that raise
/// alerts.
#[derive(Clone, Debug)]
pub struct BftMonitor {
    pub performance_metrics: Vec<(NodeId, BftNodeMetrics)>,
    pub alert_thresholds: BftAlertThresholds,
}

/// Whether the metrics map holds node `n`.
pub open spec fn node_has_key(m: Seq<(NodeId, BftNodeMetrics)>, n: NodeId) -> bool {
    exists|i: int| 0 <= i < m.len() && m[i].0 == n
}

/// The index of node `n` in the metrics map, when present.
pub open spec fn node_key_index(m: Seq<(NodeId, BftNodeMetrics)>, n: NodeId) -> int {
    choose|i: int| 0 <= i < m.len() && m[i].0 == n
}

/// Whether no node occurs twice in the metrics map.
pub open spec fn node_keys_unique(m: Seq<(NodeId, BftNodeMetrics)>) -> bool {
    forall|i: int, j: int| 0 <= i < j < m.len() ==> m[i].0 != m[j].0
}

/// The views of a list of strings.
pub open spec fn strings_view(v: Seq<String>) -> Seq<Seq<char>> {
    v.map_values(|s: String| s@)
}

/// The alert texts the thresholds raise for one node's metrics, in
/// check order.
pub open spec fn alerts_views(th: BftAlertThresholds, m: BftNodeMetrics) -> Seq<Seq<char>> {
    (if m.byzantine_flags > th.max_byzantine_flags {
        seq!["Excessive Byzantine behavior detected"@]
    } else {
        Seq::empty()
    }) + (if m.uptime_percentage < th.min_uptime_percentage {
        seq!["Low uptime detected"@]
    } else {
        Seq::empty()
    }) + (if m.response_time_avg > th.max_response_time {
        seq!["High response time detected"@]
    } else {
        Seq::empty()
    })
}

/// Finds the index of node `n` in the metrics map.
fn find_node_assoc(m: &Vec<(NodeId, BftNodeMetrics)>, n: NodeId) -> (r: Option<usize>)
    ensures
        match r {
            Option::Some(j) => j < m@.len() && m@[j as int].0 == n,
            Option::None => !node_has_key(m@, n),
        },
{
    let mut i: usize = 0;
    while i < m.len()
        invariant
            0 <= i <= m@.len(),
            forall|k: int| 0 <= k < i ==> m@[k].0 != n,
        decreases m@.len() - i,
    {
        if m[i].0.id == n.id {
            return Some(i);
        }
        i += 1;
    }
    None
}

/// With unique nodes, a found index is the `node_key_index`.
proof fn lemma_node_found(m: Seq<(NodeId, BftNodeMetrics)>, n: NodeId, j: int)
    requires
        node_keys_unique(m),
        0 <= j < m.len(),
        m[j].0 == n,
    ensures
        node_has_key(m, n),
        node_key_index(m, n) == j,
{
    assert(node_has_key(m, n));
    let i0 = node_key_index(m, n);
    assert(0 <= i0 < m.len() && m[i0].0 == n);
    if i0 < j {
        assert(m[i0].0 != m[j].0);
    } else if j < i0 {
        assert(m[j].0 != m[i0].0);
    }
}

impl BftMonitor {
    /// Metrics keys are unique.
    pub open spec fn wf(&self) -> bool {
        node_keys_unique(self.performance_metrics@)
    }

    /// A fresh monitor with the default thresholds.
    pub fn new() -> (r: BftMonitor)
        ensures
            r.wf(),
            r.performance_metrics@ == Seq::<(NodeId, BftNodeMetrics)>::empty(),
            r.alert_thresholds.max_byzantine_flags == 3,
            r.alert_thresholds.min_uptime_percentage == 95,
            r.alert_thresholds.max_response_time == 5,
            r.alert_thresholds.max_message_rate == 1000,
    {
        BftMonitor {
            performance_metrics: Vec::new(),
            alert_thresholds: BftAlertThresholds {
                max_byzantine_flags: 3,
                min_uptime_percentage: 95,
                max_response_time: 5,
                max_message_rate: 1000,
            },
        }
    }

    /// The alerts the thresholds raise for `node` — none when the
    /// node has no metrics.
    pub fn check_node_health(&self, node: &NodeId) -> (r: Vec<String>)
        requires
            self.wf(),
        ensures
            !node_has_key(self.performance_metrics@, *node) ==> r@ == Seq::<String>::empty(),
            node_has_key(self.performance_metrics@, *node) ==> strings_view(r@) == alerts_views(
                self.alert_thresholds,
                self.performance_metrics@[node_key_index(self.performance_metrics@, *node)].1,
            ),
    {
        let mut alerts: Vec<String> = Vec::new();
        let j = match find_node_assoc(&self.performance_metrics, *node) {
            Some(j) => j,
            None => {
                return alerts;
            },
        };
        proof {
            lemma_node_found(self.performance_metrics@, *node, j as int);
        }
        let m = &self.performance_metrics[j].1;
        if m.byzantine_flags > self.alert_thresholds.max_byzantine_flags {
            alerts.push("Excessive Byzantine behavior detected".to_owned());
        }
        if m.uptime_percentage < self.alert_thresholds.min_uptime_percentage {
            alerts.push("Low uptime detected".to_owned());
        }
        if m.response_time_avg > self.alert_thresholds.max_response_time {
            alerts.push("High response time detected".to_owned());
        }
        proof {
            assert(strings_view(alerts@) =~= alerts_views(self.alert_thresholds, *m));
        }
        alerts
    }
}

/// The status snapshot returned by the management API.
#[derive(Clone, Copy, Debug)]
pub struct BftSystemStatus {
    pub is_active: bool,
    pub health_score: u64,
    pub total_operations: u64,
    pub successful_operations: u64,
    pub failed_operations: u64,
    pub byzantine_detections: u64,
    pub active_nodes: u64,
    pub byzantine_nodes: u64,
    pub last_health_check: u64,
    pub fault_tolerance: u64,
}

/// One node's entry in a health report.
#[derive(Clone, Debug)]
pub struct BftNodeStatus {
    pub is_active: bool,
    pub health_score: u64,
    pub alerts: Vec<String>,
    pub last_seen: u64,
}

/// The outcome of a system-wide health check.
#[derive(Clone, Debug)]
pub struct BftHealthReport {
    pub timestamp: u64,
    pub overall_health_score: u64,
    pub consensus_status: String,
    pub storage_integrity: BftIntegrityReport,
    pub node_statuses: Vec<(NodeId, BftNodeStatus)>,
    pub recommendations: Vec<String>,
    pub critical_issues: Vec<String>,
}

/// One recovery attempt recorded in a recovery report.
#[derive(Clone, Debug)]
pub struct BftRecoveryOperation {
    pub entry_id: String,
    pub operation_type: String,
    pub status: String,
    pub timestamp: u64,
}

/// The outcome of a system-wide recovery pass.
#[derive(Clone, Debug)]
pub struct BftRecoveryReport {
    pub timestamp: u64,
    pub total_corrupted: u64,
    pub successfully_recovered: u64,
    pub failed_recoveries: u64,
    pub recovery_operations: Vec<BftRecoveryOperation>,
    pub system_restored: bool,
}

/// The roster and quorum arithmetic published to callers.
#[derive(Clone, Debug)]
pub struct BftNetworkTopology {
    pub total_nodes: u64,
    pub active_nodes: Vec<NodeId>,
    pub byzantine_nodes: Vec<NodeId>,
    pub fault_tolerance: u64,
    pub consensus_threshold: u64,
    pub network_health: u64,
    pub last_updated: u64,
}

/// The number of queue entries among the first `n` whose attempt
/// would succeed against the state `rs`.
pub open spec fn success_count(rs: BftRecoverySystem, q: Seq<Seq<char>>, n: int) -> int
    decreases n,
{
    if n <= 0 {
        0
    } else {
        success_count(rs, q, n - 1) + if attempt_outcome(rs, q[n - 1]) {
            1int
        } else {
            0int
        }
    }
}

/// The per-key residue of one processed queue entry, relative to the
/// state before the whole pass.
pub open spec fn processed_key(
    pre: BftRecoverySystem,
    cur: BftRecoverySystem,
    id: Seq<char>,
    now: u64,
) -> bool {
    let a0 = attempts_of(pre, id);
    if a0 >= pre.max_recovery_attempts {
        recovery_untouched_key(pre, cur, id)
    } else if a0 + 1 <= 2 {
        &&& corruption_of(cur, id) is None
        &&& !queue_has(cur.recovery_queue@, id)
        &&& attempts_of(cur, id) == 0
    } else {
        &&& attempts_of(cur, id) == a0 + 1
        &&& queue_has(cur.recovery_queue@, id) == queue_has(pre.recovery_queue@, id)
        &&& match (corruption_of(pre, id), corruption_of(cur, id)) {
            (Some(c0), Some(c)) => corruption_info_bumped(c0, c, a0 + 1, now),
            (None, None) => true,
            _ => false,
        }
    }
}

/// The whole management subsystem: health ledger, monitor, and the
/// recovery queue.
#[derive(Clone, Debug)]
pub struct BftManager {
    pub state: BftSystemState,
    pub monitor: BftMonitor,
    pub recovery: BftRecoverySystem,
}

impl BftManager {
    pub open spec fn wf(&self) -> bool {
        &&& self.state.wf()
        &&& self.monitor.wf()
        &&& self.recovery.wf()
    }

    /// A fresh manager.
    pub fn new(now: u64) -> (r: BftManager)
        ensures
            r.wf(),
            r.state.active_nodes@ == Seq::<NodeId>::empty(),
            r.state.byzantine_nodes@ == Seq::<NodeId>::empty(),
            r.state.system_health_score == 100,
            r.state.is_active,
            r.recovery.max_recovery_attempts == 3,
            r.recovery.recovery_queue@ == Seq::<String>::empty(),
            r.monitor.performance_metrics@ == Seq::<(NodeId, BftNodeMetrics)>::empty(),
    {
        BftManager { state: BftSystemState::new(now), monitor: BftMonitor::new(), recovery: BftRecoverySystem::new() }
    }

    /// A status snapshot of the current ledger.
    pub fn get_system_status(&self) -> (r: BftSystemStatus)
        ensures
            r.is_active == self.state.is_active,
            r.health_score == self.state.system_health_score,
            r.total_operations == self.state.total_operations,
            r.successful_operations == self.state.successful_operations,
            r.failed_operations == self.state.failed_operations,
            r.byzantine_detections == self.state.byzantine_detections,
            r.active_nodes == self.state.active_nodes@.len(),
            r.byzantine_nodes == self.state.byzantine_nodes@.len(),
            r.last_health_check == self.state.last_health_check,
            r.fault_tolerance as int == fault_tolerance_of(self.state.active_nodes@.len() as int),
    {
        let n = self.state.active_nodes.len();
        let ft: u64 = if n == 0 {
            0
        } else {
            ((n - 1) / 3) as u64
        };
        BftSystemStatus {
            is_active: self.state.is_active,
            health_score: self.state.system_health_score,
            total_operations: self.state.total_operations,
            successful_operations: self.state.successful_operations,
            failed_operations: self.state.failed_operations,
            byzantine_detections: self.state.byzantine_detections,
            active_nodes: self.state.active_nodes.len() as u64,
            byzantine_nodes: self.state.byzantine_nodes.len() as u64,
            last_health_check: self.state.last_health_check,
            fault_tolerance: ft,
        }
    }

    /// Activates the system, records the health check, enrols the
    /// caller on the active roster (unless flagged Byzantine), gives
    /// it a fresh metrics record, and returns a status snapshot.
    pub fn initialize_system(&mut self, caller: NodeId, now: u64) -> (r: BftResult<
        BftSystemStatus,
    >)
        requires
            old(self).wf(),
        ensures
            final(self).wf(),
            final(self).state.is_active,
            final(self).state.last_health_check == now,
            final(self).state.active_nodes@ == (if seq_contains_node(
                old(self).state.byzantine_nodes@,
                caller,
            ) || seq_contains_node(old(self).state.active_nodes@, caller) {
                old(self).state.active_nodes@
            } else {
                old(self).state.active_nodes@.push(caller)
            }),
            final(self).state.byzantine_nodes@ == old(self).state.byzantine_nodes@,
            final(self).state.system_health_score as int == health_score_of(
                old(self).state.total_operations,
                old(self).state.successful_operations,
                old(self).state.byzantine_detections,
                old(self).state.recovery_operations,
            ),
            node_has_key(final(self).monitor.performance_metrics@, caller),
            final(self).monitor.performance_metrics@[node_key_index(
                final(self).monitor.performance_metrics@,
                caller,
            )].1 == (BftNodeMetrics {
                messages_sent: 0,
                messages_received: 0,
                operations_proposed: 0,
                operations_committed: 0,
                byzantine_flags: 0,
                response_time_avg: 0,
                uptime_percentage: 100,
            }),
            final(self).recovery == old(self).recovery,
            r matches BftResult::Success(st) && st == final(self).get_system_status_spec(),
    {
        self.state.is_active = true;
        self.state.last_health_check = now;
        let flagged = nodes_contain(&self.state.byzantine_nodes, caller);
        let present = nodes_contain(&self.state.active_nodes, caller);
        if !flagged && !present {
            self.state.active_nodes.push(caller);
            proof {
                assert(self.state.active_nodes@.last() == caller);
            }
        }
        self.state.update_health_score();
        let fresh = BftNodeMetrics {
            messages_sent: 0,
            messages_received: 0,
            operations_proposed: 0,
            operations_committed: 0,
            byzantine_flags: 0,
            response_time_avg: 0,
            uptime_percentage: 100,
        };
        let ghost metrics_pre = self.monitor.performance_metrics@;
        match find_node_assoc(&self.monitor.performance_metrics, caller) {
            Some(j) => {
                proof {
                    lemma_node_found(metrics_pre, caller, j as int);
                }
                let _ = self.monitor.performance_metrics.remove(j);
                self.monitor.performance_metrics.insert(j, (caller, fresh));
                proof {
                    assert(self.monitor.performance_metrics@ =~= metrics_pre.update(
                        j as int,
                        self.monitor.performance_metrics@[j as int],
                    ));
                    lemma_node_found(self.monitor.performance_metrics@, caller, j as int);
                }
            },
            None => {
                self.monitor.performance_metrics.push((caller, fresh));
                proof {
                    assert(self.monitor.performance_metrics@.drop_last() =~= metrics_pre);
                    lemma_node_found(
                        self.monitor.performance_metrics@,
                        caller,
                        metrics_pre.len() as int,
                    );
                }
            },
        }
        proof {
            let post = self.monitor.performance_metrics@;
            assert forall|a: int, b: int| 0 <= a < b < post.len() implies post[a].0
                != post[b].0 by {
                if b < metrics_pre.len() {
                    if post[a].0 == metrics_pre[a].0 && post[b].0 == metrics_pre[b].0 {
                    }
                } else {
                    assert(post[a] == metrics_pre[a]);
                    assert(!node_has_key(metrics_pre, caller));
                }
            }
        }
        BftResult::ok(self.get_system_status())
    }

    /// The status snapshot as a function of the state.
    pub open spec fn get_system_status_spec(&self) -> BftSystemStatus {
        BftSystemStatus {
            is_active: self.state.is_active,
            health_score: self.state.system_health_score,
            total_operations: self.state.total_operations,
            successful_operations: self.state.successful_operations,
            failed_operations: self.state.failed_operations,
            byzantine_detections: self.state.byzantine_detections,
            active_nodes: self.state.active_nodes@.len() as u64,
            byzantine_nodes: self.state.byzantine_nodes@.len() as u64,
            last_health_check: self.state.last_health_check,
            fault_tolerance: fault_tolerance_of(self.state.active_nodes@.len() as int) as u64,
        }
    }

    /// Performs the system health check: recomputes the score, and
    /// reports the per-node alerts, the critical issues the counters
    /// raise, and the resulting recommendations.
    pub fn perform_health_check(&mut self, now: u64) -> (r: BftResult<BftHealthReport>)
        requires
            old(self).wf(),
        ensures
            final(self).wf(),
            final(self).state.last_health_check == now,
            final(self).state.system_health_score as int == health_score_of(
                old(self).state.total_operations,
                old(self).state.successful_operations,
                old(self).state.byzantine_detections,
                old(self).state.recovery_operations,
            ),
            final(self).state.active_nodes@ == old(self).state.active_nodes@,
            final(self).state.byzantine_nodes@ == old(self).state.byzantine_nodes@,
            final(self).state.is_active == old(self).state.is_active,
            final(self).monitor == old(self).monitor,
            final(self).recovery == old(self).recovery,
            r matches BftResult::Success(report) && {
                let st = final(self).state;
                let metrics = old(self).monitor.performance_metrics@;
                &&& report.timestamp == now
                &&& report.overall_health_score == st.system_health_score
                &&& report.consensus_status@ == (if st.is_active {
                    "active"@
                } else {
                    "inactive"@
                })
                &&& report.storage_integrity.total_checked == 0
                &&& report.storage_integrity.corrupted_entries@ == Seq::<String>::empty()
                &&& report.node_statuses@.len() == metrics.len()
                &&& forall|i: int|
                    0 <= i < metrics.len() ==> {
                        let ns = #[trigger] report.node_statuses@[i];
                        &&& ns.0 == metrics[i].0
                        &&& ns.1.is_active
                        &&& ns.1.health_score == metrics[i].1.uptime_percentage
                        &&& ns.1.last_seen == now
                        &&& strings_view(ns.1.alerts@) == alerts_views(
                            old(self).monitor.alert_thresholds,
                            metrics[i].1,
                        )
                    }
                &&& strings_view(report.critical_issues@) == critical_views(st)
                &&& strings_view(report.recommendations@) == recommendation_views(
                    st.system_health_score,
                    critical_views(st).len() as int,
                )
            },
    {
        self.state.last_health_check = now;
        self.state.update_health_score();
        let mut node_statuses: Vec<(NodeId, BftNodeStatus)> = Vec::new();
        let mut i: usize = 0;
        while i < self.monitor.performance_metrics.len()
            invariant
                self.monitor.wf(),
                0 <= i <= self.monitor.performance_metrics@.len(),
                node_statuses@.len() == i,
                forall|k: int|
                    0 <= k < i ==> {
                        let ns = #[trigger] node_statuses@[k];
                        &&& ns.0 == self.monitor.performance_metrics@[k].0
                        &&& ns.1.is_active
                        &&& ns.1.health_score
                            == self.monitor.performance_metrics@[k].1.uptime_percentage
                        &&& ns.1.last_seen == now
                        &&& strings_view(ns.1.alerts@) == alerts_views(
                            self.monitor.alert_thresholds,
                            self.monitor.performance_metrics@[k].1,
                        )
                    },
            decreases self.monitor.performance_metrics@.len() - i,
        {
            let node = self.monitor.performance_metrics[i].0;
            proof {
                lemma_node_found(self.monitor.performance_metrics@, node, i as int);
            }
            let alerts = self.monitor.check_node_health(&node);
            let uptime = self.monitor.performance_metrics[i].1.uptime_percentage;
            node_statuses.push(
                (
                    node,
                    BftNodeStatus {
                        is_active: true,
                        health_score: uptime,
                        alerts,
                        last_seen: now,
                    },
                ),
            );
            i += 1;
        }
        let mut critical_issues: Vec<String> = Vec::new();
        if self.state.byzantine_detections > 10 {
            critical_issues.push("High number of Byzantine detections".to_owned());
        }
        if self.state.system_health_score < 80 {
            critical_issues.push("System health score below 80%".to_owned());
        }
        if self.state.active_nodes.len() < 3 {
            critical_issues.push("Insufficient active nodes for BFT".to_owned());
        }
        proof {
            assert(strings_view(critical_issues@) =~= critical_views(self.state));
        }
        let mut recommendations: Vec<String> = Vec::new();
        if self.state.system_health_score < 90 {
            recommendations.push("Consider increasing replication factor".to_owned());
        }
        if critical_issues.len() > 0 {
            recommendations.push("Address critical issues immediately".to_owned());
        }
        proof {
            assert(strings_view(recommendations@) =~= recommendation_views(
                self.state.system_health_score,
                critical_views(self.state).len() as int,
            ));
        }
        let consensus_status = if self.state.is_active {
            "active".to_owned()
        } else {
            "inactive".to_owned()
        };
        let report = BftHealthReport {
            timestamp: now,
            overall_health_score: self.state.system_health_score,
            consensus_status,
            storage_integrity: BftIntegrityReport {
                total_checked: 0,
                integrity_passed: 0,
                integrity_failed: 0,
                corrupted_entries: Vec::new(),
                byzantine_nodes: Vec::new(),
                recovery_needed: Vec::new(),
            },
            node_statuses,
            recommendations,
            critical_issues,
        };
        BftResult::ok(report)
    }

    /// Records a Byzantine-behaviour report against `suspect`: the
    /// node enters the Byzantine set (once), leaves the active
    /// roster, its metrics record is flagged, and the health score is
    /// recomputed.  The `behavior_type` and `evidence` are the
    /// reporter's description; this ledger only counts them.
    pub fn report_byzantine_behavior(
        &mut self,
        suspect: NodeId,
        behavior_type: String,
        evidence: Vec<u8>,
    ) -> (r: BftResult<String>)
        requires
            old(self).wf(),
            old(self).state.byzantine_detections < u64::MAX,
        ensures
            final(self).wf(),
            final(self).state.byzantine_nodes@ == (if seq_contains_node(
                old(self).state.byzantine_nodes@,
                suspect,
            ) {
                old(self).state.byzantine_nodes@
            } else {
                old(self).state.byzantine_nodes@.push(suspect)
            }),
            seq_contains_node(final(self).state.byzantine_nodes@, suspect),
            final(self).state.active_nodes@ == remove_node_spec(
                old(self).state.active_nodes@,
                suspect,
            ),
            !seq_contains_node(final(self).state.active_nodes@, suspect),
            final(self).state.byzantine_detections == old(self).state.byzantine_detections + (
            if seq_contains_node(old(self).state.byzantine_nodes@, suspect) {
                0int
            } else {
                1int
            }),
            final(self).state.system_health_score as int == health_score_of(
                final(self).state.total_operations,
                final(self).state.successful_operations,
                final(self).state.byzantine_detections,
                final(self).state.recovery_operations,
            ),
            final(self).state.total_operations == old(self).state.total_operations,
            final(self).state.successful_operations == old(self).state.successful_operations,
            final(self).state.failed_operations == old(self).state.failed_operations,
            final(self).state.recovery_operations == old(self).state.recovery_operations,
            final(self).state.last_health_check == old(self).state.last_health_check,
            final(self).state.is_active == old(self).state.is_active,
            final(self).recovery == old(self).recovery,
            node_has_key(old(self).monitor.performance_metrics@, suspect) ==> {
                let pre_m = old(self).monitor.performance_metrics@;
                let post_m = final(self).monitor.performance_metrics@;
                let j = node_key_index(pre_m, suspect);
                &&& post_m.len() == pre_m.len()
                &&& forall|k: int| 0 <= k < pre_m.len() && k != j ==> post_m[k] == pre_m[k]
                &&& post_m[j].0 == suspect
                &&& post_m[j].1.byzantine_flags as int == (if pre_m[j].1.byzantine_flags
                    < u64::MAX {
                    pre_m[j].1.byzantine_flags + 1
                } else {
                    u64::MAX as int
                })
            },
            !node_has_key(old(self).monitor.performance_metrics@, suspect) ==> final(self).monitor
                == old(self).monitor,
            r matches BftResult::Success(msg) && msg@
                == "Byzantine behavior report processed"@,
    {
        let already = nodes_contain(&self.state.byzantine_nodes, suspect);
        if !already {
            self.state.byzantine_nodes.push(suspect);
            self.state.byzantine_detections = self.state.byzantine_detections + 1;
            proof {
                assert(self.state.byzantine_nodes@[old(
                    self,
                ).state.byzantine_nodes@.len() as int] == suspect);
            }
        }
        nodes_remove(&mut self.state.active_nodes, suspect);
        proof {
            lemma_remove_node_props(old(self).state.active_nodes@, suspect);
            assert forall|i: int|
                0 <= i < self.state.active_nodes@.len() implies !seq_contains_node(
                self.state.byzantine_nodes@,
                #[trigger] self.state.active_nodes@[i],
            ) by {
                let x = self.state.active_nodes@[i];
                assert(old(self).state.active_nodes@.contains(x));
                let k = choose|k: int|
                    0 <= k < old(self).state.active_nodes@.len() && old(
                        self,
                    ).state.active_nodes@[k] == x;
                assert(!seq_contains_node(old(self).state.byzantine_nodes@, x));
                assert(x != suspect);
            }
        }
        self.state.update_health_score();
        let ghost metrics_pre = self.monitor.performance_metrics@;
        match find_node_assoc(&self.monitor.performance_metrics, suspect) {
            Some(j) => {
                proof {
                    lemma_node_found(metrics_pre, suspect, j as int);
                }
                let pair = self.monitor.performance_metrics.remove(j);
                let mut m = pair.1;
                if m.byzantine_flags < u64::MAX {
                    m.byzantine_flags = m.byzantine_flags + 1;
                }
                self.monitor.performance_metrics.insert(j, (suspect, m));
                proof {
                    assert(self.monitor.performance_metrics@ =~= metrics_pre.update(
                        j as int,
                        self.monitor.performance_metrics@[j as int],
                    ));
                }
            },
            None => {},
        }
        let _ = behavior_type;
        let _ = evidence;
        BftResult::ok("Byzantine behavior report processed".to_owned())
    }

    /// Works through the recovery queue once: every queued entry gets
    /// one attempt, the outcomes are tallied into a report, the
    /// ledger's recovery counter and health score are refreshed, and
    /// the system counts as restored when the score clears 95.
    pub fn recover_system(&mut self, now: u64) -> (r: BftResult<BftRecoveryReport>)
        requires
            old(self).wf(),
        ensures
            final(self).wf(),
            final(self).monitor == old(self).monitor,
            final(self).recovery.max_recovery_attempts == old(
                self,
            ).recovery.max_recovery_attempts,
            forall|k: int|
                0 <= k < old(self).recovery.recovery_queue@.len() ==> #[trigger] processed_key(
                    old(self).recovery,
                    final(self).recovery,
                    old(self).recovery.recovery_queue@[k]@,
                    now,
                ),
            forall|id2: Seq<char>|
                !queue_has(old(self).recovery.recovery_queue@, id2)
                    ==> #[trigger] recovery_untouched_key(
                    old(self).recovery,
                    final(self).recovery,
                    id2,
                ),
            final(self).state.recovery_operations as int == crate::storage::sat_add(
                old(self).state.recovery_operations,
                success_count(
                    old(self).recovery,
                    strings_view(old(self).recovery.recovery_queue@),
                    old(self).recovery.recovery_queue@.len() as int,
                ),
            ),
            final(self).state.system_health_score as int == health_score_of(
                final(self).state.total_operations,
                final(self).state.successful_operations,
                final(self).state.byzantine_detections,
                final(self).state.recovery_operations,
            ),
            final(self).state.total_operations == old(self).state.total_operations,
            final(self).state.successful_operations == old(self).state.successful_operations,
            final(self).state.failed_operations == old(self).state.failed_operations,
            final(self).state.byzantine_detections == old(self).state.byzantine_detections,
            final(self).state.active_nodes@ == old(self).state.active_nodes@,
            final(self).state.byzantine_nodes@ == old(self).state.byzantine_nodes@,
            final(self).state.is_active == old(self).state.is_active,
            final(self).state.last_health_check == old(self).state.last_health_check,
            r matches BftResult::Success(report) && {
                let q = strings_view(old(self).recovery.recovery_queue@);
                let succ = success_count(old(self).recovery, q, q.len() as int);
                &&& report.timestamp == now
                &&& report.total_corrupted == old(self).recovery.corrupted_entries@.len()
                &&& report.successfully_recovered as int == succ
                &&& report.failed_recoveries as int == q.len() - succ
                &&& report.recovery_operations@.len() == q.len()
                &&& forall|k: int|
                    0 <= k < q.len() ==> {
                        let op = #[trigger] report.recovery_operations@[k];
                        &&& op.entry_id@ == q[k]
                        &&& op.operation_type@ == "recovery"@
                        &&& op.timestamp == now
                        &&& op.status@ == (if attempt_outcome(old(self).recovery, q[k]) {
                            "success"@
                        } else {
                            "failed"@
                        })
                    }
                &&& report.system_restored == (final(self).state.system_health_score > 95)
            },
    {
        let queue_copy = self.recovery.recovery_queue.clone();
        proof {
            assert forall|i: int|
                0 <= i < queue_copy@.len() implies (#[trigger] queue_copy@[i])@
                == self.recovery.recovery_queue@[i]@ by {
                assert(cloned(self.recovery.recovery_queue@[i], queue_copy@[i]));
            }
            assert(strings_view(queue_copy@) =~= strings_view(self.recovery.recovery_queue@));
        }
        let ghost q = strings_view(old(self).recovery.recovery_queue@);
        let mut operations: Vec<BftRecoveryOperation> = Vec::new();
        let mut recovered: u64 = 0;
        let mut failed: u64 = 0;
        let total_corrupted = self.recovery.corrupted_entries.len() as u64;
        let mut i: usize = 0;
        while i < queue_copy.len()
            invariant
                old(self).wf(),
                self.recovery.wf(),
                self.state == old(self).state,
                self.monitor == old(self).monitor,
                self.recovery.max_recovery_attempts == old(self).recovery.max_recovery_attempts,
                self.recovery.auto_recovery_enabled == old(self).recovery.auto_recovery_enabled,
                q == strings_view(old(self).recovery.recovery_queue@),
                old(self).recovery.recovery_queue@.len() == q.len(),
                queue_copy@.len() == q.len(),
                forall|k: int| 0 <= k < q.len() ==> (#[trigger] queue_copy@[k])@ == q[k],
                queue_unique(old(self).recovery.recovery_queue@),
                0 <= i <= q.len(),
                recovered <= i,
                failed <= i,
                recovered as int == success_count(old(self).recovery, q, i as int),
                recovered + failed == i,
                operations@.len() == i,
                forall|k: int|
                    0 <= k < i ==> {
                        let op = #[trigger] operations@[k];
                        &&& op.entry_id@ == q[k]
                        &&& op.operation_type@ == "recovery"@
                        &&& op.timestamp == now
                        &&& op.status@ == (if attempt_outcome(old(self).recovery, q[k]) {
                            "success"@
                        } else {
                            "failed"@
                        })
                    },
                forall|k: int|
                    0 <= k < i ==> #[trigger] processed_key(
                        old(self).recovery,
                        self.recovery,
                        q[k],
                        now,
                    ),
                forall|k: int|
                    i <= k < q.len() ==> #[trigger] recovery_untouched_key(
                        old(self).recovery,
                        self.recovery,
                        q[k],
                    ),
                forall|id2: Seq<char>|
                    !queue_has(old(self).recovery.recovery_queue@, id2)
                        ==> #[trigger] recovery_untouched_key(
                        old(self).recovery,
                        self.recovery,
                        id2,
                    ),
            decreases q.len() - i,
        {
            let entry_id = &queue_copy[i];
            let ghost id = q[i as int];
            let ghost rec_pre = self.recovery;
            proof {
                assert(q[i as int] == old(self).recovery.recovery_queue@[i as int]@);
                assert(recovery_untouched_key(old(self).recovery, rec_pre, id));
                assert(attempts_of(rec_pre, id) == attempts_of(old(self).recovery, id));
                assert(attempt_outcome(rec_pre, id) == attempt_outcome(old(self).recovery, id));
            }
            let outcome = match self.recovery.attempt_recovery(entry_id.as_str(), now) {
                Ok(b) => b,
                Err(_) => false,
            };
            let status = if outcome {
                recovered = recovered + 1;
                "success".to_owned()
            } else {
                failed = failed + 1;
                "failed".to_owned()
            };
            operations.push(
                BftRecoveryOperation {
                    entry_id: entry_id.clone(),
                    operation_type: "recovery".to_owned(),
                    status,
                    timestamp: now,
                },
            );
            proof {
                assert(attempt_transition(rec_pre, self.recovery, id, now));
                assert(processed_key(old(self).recovery, self.recovery, id, now)) by {
                    let a0 = attempts_of(old(self).recovery, id);
                    assert(attempts_of(rec_pre, id) == a0);
                    assert(corruption_of(rec_pre, id) == corruption_of(old(self).recovery, id));
                    assert(queue_has(rec_pre.recovery_queue@, id) == queue_has(
                        old(self).recovery.recovery_queue@,
                        id,
                    ));
                }
                assert forall|k: int|
                    0 <= k < i + 1 implies #[trigger] processed_key(
                    old(self).recovery,
                    self.recovery,
                    q[k],
                    now,
                ) by {
                    if k < i {
                        assert(q[k] == old(self).recovery.recovery_queue@[k]@);
                        assert(q[k] != id);
                        assert(recovery_untouched_key(rec_pre, self.recovery, q[k]));
                        assert(processed_key(old(self).recovery, rec_pre, q[k], now));
                    }
                }
                assert forall|k: int|
                    i + 1 <= k < q.len() implies #[trigger] recovery_untouched_key(
                    old(self).recovery,
                    self.recovery,
                    q[k],
                ) by {
                    assert(q[k] == old(self).recovery.recovery_queue@[k]@);
                    assert(q[k] != id);
                    assert(recovery_untouched_key(rec_pre, self.recovery, q[k]));
                    assert(recovery_untouched_key(old(self).recovery, rec_pre, q[k]));
                }
                assert forall|id2: Seq<char>|
                    !queue_has(old(self).recovery.recovery_queue@, id2)
                        implies #[trigger] recovery_untouched_key(
                    old(self).recovery,
                    self.recovery,
                    id2,
                ) by {
                    assert(id2 != id) by {
                        assert(old(self).recovery.recovery_queue@[i as int]@ == id);
                    }
                    assert(recovery_untouched_key(rec_pre, self.recovery, id2));
                    assert(recovery_untouched_key(old(self).recovery, rec_pre, id2));
                }
            }
            i += 1;
        }
        let room = u64::MAX - self.state.recovery_operations;
        self.state.recovery_operations = if recovered <= room {
            self.state.recovery_operations + recovered
        } else {
            u64::MAX
        };
        self.state.update_health_score();
        let report = BftRecoveryReport {
            timestamp: now,
            total_corrupted,
            successfully_recovered: recovered,
            failed_recoveries: failed,
            recovery_operations: operations,
            system_restored: self.state.system_health_score > 95,
        };
        BftResult::ok(report)
    }

    /// The published topology: the rosters, the fault tolerance
    /// `⌊(n - 1) / 3⌋` of the active roster, and the matching quorum
    /// size `2f + 1`.
    pub fn get_network_topology(&self) -> (r: BftResult<BftNetworkTopology>)
        ensures
            r matches BftResult::Success(t) && {
                &&& t.total_nodes == self.state.active_nodes@.len()
                &&& t.active_nodes@ == self.state.active_nodes@
                &&& t.byzantine_nodes@ == self.state.byzantine_nodes@
                &&& t.fault_tolerance as int == fault_tolerance_of(
                    self.state.active_nodes@.len() as int,
                )
                &&& t.consensus_threshold as int == required_signatures_of(
                    self.state.active_nodes@.len() as int,
                )
                &&& t.network_health == self.state.system_health_score
                &&& t.last_updated == self.state.last_health_check
            },
    {
        let n = self.state.active_nodes.len();
        let ft: u64 = if n == 0 {
            0
        } else {
            ((n - 1) / 3) as u64
        };
        proof {
            if n > 0 {
                assert(3 * ((n - 1) as int / 3) <= n - 1);
            }
        }
        let threshold: u64 = 2 * ft + 1;
        let topology = BftNetworkTopology {
            total_nodes: self.state.active_nodes.len() as u64,
            active_nodes: self.state.active_nodes.clone(),
            byzantine_nodes: self.state.byzantine_nodes.clone(),
            fault_tolerance: ft,
            consensus_threshold: threshold,
            network_health: self.state.system_health_score,
            last_updated: self.state.last_health_check,
        };
        proof {
            assert(topology.active_nodes@ =~= self.state.active_nodes@);
            assert(topology.byzantine_nodes@ =~= self.state.byzantine_nodes@);
        }
        BftResult::ok(topology)
    }
}

/// The critical-issue texts the ledger raises, in check order.
pub open spec fn critical_views(st: BftSystemState) -> Seq<Seq<char>> {
    (if st.byzantine_detections > 10 {
        seq!["High number of Byzantine detections"@]
    } else {
        Seq::empty()
    }) + (if st.system_health_score < 80 {
        seq!["System health score below 80%"@]
    } else {
        Seq::empty()
    }) + (if st.active_nodes@.len() < 3 {
        seq!["Insufficient active nodes for BFT"@]
    } else {
        Seq::empty()
    })
}

/// The recommendation texts raised for a score and a number of
/// critical issues.
pub open spec fn recommendation_views(score: u64, critical: int) -> Seq<Seq<char>> {
    (if score < 90 {
        seq!["Consider increasing replication factor"@]
    } else {
        Seq::empty()
    }) + (if critical > 0 {
        seq!["Address critical issues immediately"@]
    } else {
        Seq::empty()
    })
}

} // verus!
