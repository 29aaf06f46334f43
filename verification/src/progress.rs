//! Progress aggregation: one consumer folds the per-task cumulative
//! progress messages into a single combined total and decides when the
//! completion signal goes to the display.
//!
//! The aggregator is seeded with the discovered identifiers, each at zero
//! bytes. Every message overwrites the value stored for its identifier —
//! last write wins — and the total is the sum over all identifiers. A
//! message for an identifier that discovery never assigned changes nothing.
//! The completion signal is raised by the step that first takes the total
//! to the denominator or beyond, and never again.

use vstd::prelude::*;

use crate::discovery::{ids_distinct, FileEntry};
use crate::model::{
    last_index_of, lemma_last_index_of, lemma_sum_u64_bound, lemma_sum_u64_element_le,
    lemma_sum_u64_nonneg, lemma_sum_u64_pointwise_le, lemma_sum_u64_push, lemma_sum_u64_update,
    sum_u64,
};

verus! {

/// Cumulative progress of one task: total bytes sent for `id` so far.
pub struct ProgressMessage {
    /// Identifier of the file entry the progress belongs to.
    pub id: u64,
    /// Bytes uploaded for that file so far — cumulative, not a delta.
    pub cumulative_bytes: u64,
}

/// The aggregator's mathematical state: which value is stored for each
/// identifier, and whether the completion signal has been raised.
pub ghost struct AggState {
    /// The identifiers known to the aggregator, in discovery order.
    pub ids: Seq<u64>,
    /// The value last stored for each identifier, positionally.
    pub bytes: Seq<u64>,
    /// Whether the completion signal has been raised.
    pub finished: bool,
}

impl AggState {
    /// One stored value per identifier, identifiers pairwise distinct.
    pub open spec fn wf(self) -> bool {
        &&& self.ids.len() == self.bytes.len()
        &&& forall|i: int, j: int| 0 <= i < j < self.ids.len() ==> self.ids[i] != self.ids[j]
    }

    /// The combined total: sum of the stored values.
    pub open spec fn total(self) -> int {
        sum_u64(self.bytes)
    }

    /// The value stored for `id`, zero if `id` is unknown.
    pub open spec fn stored(self, id: u64) -> int {
        let i = last_index_of(self.ids, id);
        if i < 0 {
            0
        } else {
            self.bytes[i] as int
        }
    }
}

/// The stored values after one message: last write wins for a known
/// identifier, nothing changes for an unknown one.
pub open spec fn step_bytes(v: AggState, id: u64, c: u64) -> Seq<u64> {
    let i = last_index_of(v.ids, id);
    if i < 0 {
        v.bytes
    } else {
        v.bytes.update(i, c)
    }
}

/// Whether the step on this message raises the completion signal: it is
/// the first to take the total to the denominator or beyond.
pub open spec fn step_signal(v: AggState, total_size: u64, id: u64, c: u64) -> bool {
    !v.finished && sum_u64(step_bytes(v, id, c)) >= total_size
}

/// The aggregator state after one message.
pub open spec fn step(v: AggState, total_size: u64, id: u64, c: u64) -> AggState {
    AggState {
        ids: v.ids,
        bytes: step_bytes(v, id, c),
        finished: v.finished || step_signal(v, total_size, id, c),
    }
}

/// The aggregator state after a whole sequence of messages.
pub open spec fn run(v: AggState, total_size: u64, msgs: Seq<ProgressMessage>) -> AggState
    decreases msgs.len(),
{
    if msgs.len() == 0 {
        v
    } else {
        let prev = run(v, total_size, msgs.drop_last());
        step(prev, total_size, msgs.last().id, msgs.last().cumulative_bytes)
    }
}

/// How many steps of the run raise the completion signal.
pub open spec fn signal_count(v: AggState, total_size: u64, msgs: Seq<ProgressMessage>) -> int
    decreases msgs.len(),
{
    if msgs.len() == 0 {
        0
    } else {
        let prev = run(v, total_size, msgs.drop_last());
        signal_count(v, total_size, msgs.drop_last()) + if step_signal(
            prev,
            total_size,
            msgs.last().id,
            msgs.last().cumulative_bytes,
        ) {
            1int
        } else {
            0int
        }
    }
}

/// The exec aggregator: stored values, running total and signal flag.
pub struct Aggregator {
    /// The identifiers known to the aggregator, in discovery order.
    pub ids: Vec<u64>,
    /// The value last stored for each identifier, positionally.
    pub bytes: Vec<u64>,
    /// The sum of `bytes`, kept wide enough that it can never overflow.
    pub total: u128,
    /// The progress denominator: sum of all discovered file sizes.
    pub total_size: u64,
    /// Whether the completion signal has been raised.
    pub finished: bool,
}

impl View for Aggregator {
    type V = AggState;

    open spec fn view(&self) -> AggState {
        AggState { ids: self.ids@, bytes: self.bytes@, finished: self.finished }
    }
}

impl Aggregator {
    /// The exec state matches its model and carries the true total.
    pub open spec fn wf(self) -> bool {
        &&& self@.wf()
        &&& self.total as int == self@.total()
    }

    /// A fresh aggregator over the discovered files: every identifier known
    /// and at zero bytes, total zero, signal not yet raised.
    pub fn new(entries: &Vec<FileEntry>, total_size: u64) -> (a: Aggregator)
        requires
            ids_distinct(entries@),
        ensures
            a.wf(),
            a@.ids.len() == entries@.len(),
            forall|i: int| 0 <= i < entries@.len() ==> a@.ids[i] == (#[trigger] entries@[i]).id,
            forall|i: int| 0 <= i < entries@.len() ==> a@.bytes[i] == 0,
            a@.total() == 0,
            a.total_size == total_size,
            !a@.finished,
    {
        let mut ids: Vec<u64> = Vec::new();
        let mut bytes: Vec<u64> = Vec::new();
        let mut i: usize = 0;
        while i < entries.len()
            invariant
                i <= entries.len(),
                ids@.len() == i,
                bytes@.len() == i,
                forall|t: int| 0 <= t < i ==> ids@[t] == (#[trigger] entries@[t]).id,
                forall|t: int| 0 <= t < i ==> bytes@[t] == 0,
                sum_u64(bytes@) == 0,
            decreases entries.len() - i,
        {
            ids.push(entries[i].id);
            proof {
                lemma_sum_u64_push(bytes@, 0);
            }
            bytes.push(0);
            i = i + 1;
        }
        proof {
            assert forall|x: int, y: int| 0 <= x < y < ids@.len() implies ids@[x] != ids@[y] by {
                assert(ids@[x] == entries@[x].id);
                assert(ids@[y] == entries@[y].id);
            }
        }
        Aggregator { ids, bytes, total: 0, total_size, finished: false }
    }

    /// The combined total so far.
    pub fn current_total(&self) -> (t: u128)
        requires
            self.wf(),
        ensures
            t as int == self@.total(),
    {
        self.total
    }

    /// Whether the completion signal has been raised.
    pub fn is_finished(&self) -> (b: bool)
        ensures
            b == self@.finished,
    {
        self.finished
    }

    /// Fold one message in: store its value for its identifier, move the
    /// total by the difference, and decide the completion signal. Returns
    /// whether the display is to be told that the upload is complete now.
    pub fn on_message(&mut self, msg: &ProgressMessage) -> (signal: bool)
        requires
            old(self).wf(),
        ensures
            final(self).wf(),
            final(self)@ == step(old(self)@, old(self).total_size, msg.id, msg.cumulative_bytes),
            signal == step_signal(old(self)@, old(self).total_size, msg.id, msg.cumulative_bytes),
            final(self).total_size == old(self).total_size,
    {
        proof {
            lemma_last_index_of(self.ids@, msg.id);
        }
        let idx = find_index(&self.ids, msg.id);
        match idx {
            Some(i) => {
                let n = self.bytes.len();
                let previous = self.bytes[i];
                proof {
                    let updated = self.bytes@.update(i as int, msg.cumulative_bytes);
                    lemma_sum_u64_update(self.bytes@, i as int, msg.cumulative_bytes);
                    lemma_sum_u64_element_le(self.bytes@, i as int);
                    lemma_sum_u64_nonneg(updated);
                    lemma_sum_u64_bound(updated);
                    assert(sum_u64(updated) <= (usize::MAX as int) * (u64::MAX as int))
                        by (nonlinear_arith)
                        requires
                            sum_u64(updated) <= updated.len() * (u64::MAX as int),
                            updated.len() <= usize::MAX as int,
                    ;
                }
                self.bytes.set(i, msg.cumulative_bytes);
                self.total = self.total - previous as u128 + msg.cumulative_bytes as u128;
            },
            None => {
            },
        }
        let signal = !self.finished && self.total >= self.total_size as u128;
        if signal {
            self.finished = true;
        }
        signal
    }
}

/// One step keeps the model well-formed: the identifiers do not change and
/// the stored values keep their count.
pub proof fn lemma_step_preserves_wf(v: AggState, total_size: u64, id: u64, c: u64)
    requires
        v.wf(),
    ensures
        step(v, total_size, id, c).wf(),
{
    lemma_last_index_of(v.ids, id);
}

/// One message that carries at least the value stored for its identifier
/// never lowers any stored value, nor the combined total.
pub proof fn lemma_step_monotone(v: AggState, total_size: u64, id: u64, c: u64)
    requires
        v.wf(),
        v.stored(id) <= c,
    ensures
        forall|x: u64| v.stored(x) <= #[trigger] step(v, total_size, id, c).stored(x),
        v.total() <= step(v, total_size, id, c).total(),
{
    lemma_last_index_of(v.ids, id);
    let i = last_index_of(v.ids, id);
    let w = step(v, total_size, id, c);
    if i >= 0 {
        lemma_sum_u64_update(v.bytes, i, c);
        lemma_sum_u64_element_le(v.bytes, i);
        assert forall|x: u64| v.stored(x) <= #[trigger] w.stored(x) by {
            lemma_last_index_of(v.ids, x);
            let j = last_index_of(v.ids, x);
            if j >= 0 && j == i {
                assert(v.ids[j] == x && v.ids[i] == id);
            }
        }
    }
}

/// The signal flag never reverts over a run.
pub proof fn lemma_finished_monotone(v: AggState, total_size: u64, msgs: Seq<ProgressMessage>)
    requires
        v.finished,
    ensures
        run(v, total_size, msgs).finished,
    decreases msgs.len(),
{
    if msgs.len() > 0 {
        lemma_finished_monotone(v, total_size, msgs.drop_last());
    }
}

/// A cumulative stream: each message carries at least the value the
/// aggregator has stored for its identifier at the moment it arrives —
/// that is, per identifier the observed values are non-decreasing.
pub open spec fn cumulative_stream(
    v: AggState,
    total_size: u64,
    msgs: Seq<ProgressMessage>,
) -> bool {
    forall|k: int|
        0 <= k < msgs.len() ==> run(v, total_size, msgs.subrange(0, k)).stored(
            (#[trigger] msgs[k]).id,
        ) <= msgs[k].cumulative_bytes
}

/// Over a cumulative stream no stored value and no combined total ever
/// decreases.
pub proof fn lemma_run_monotone(v: AggState, total_size: u64, msgs: Seq<ProgressMessage>)
    requires
        v.wf(),
        cumulative_stream(v, total_size, msgs),
    ensures
        run(v, total_size, msgs).wf(),
        forall|x: u64| v.stored(x) <= #[trigger] run(v, total_size, msgs).stored(x),
        v.total() <= run(v, total_size, msgs).total(),
    decreases msgs.len(),
{
    if msgs.len() > 0 {
        let m = msgs.drop_last();
        let last = msgs.last();
        assert(cumulative_stream(v, total_size, m)) by {
            assert forall|k: int|
                0 <= k < m.len() implies run(v, total_size, m.subrange(0, k)).stored(
                (#[trigger] m[k]).id,
            ) <= m[k].cumulative_bytes by {
                assert(m.subrange(0, k) =~= msgs.subrange(0, k));
                assert(m[k] == msgs[k]);
            }
        }
        lemma_run_monotone(v, total_size, m);
        let prev = run(v, total_size, m);
        assert(msgs.subrange(0, msgs.len() - 1) =~= m);
        assert(prev.stored(last.id) <= last.cumulative_bytes);
        lemma_step_monotone(prev, total_size, last.id, last.cumulative_bytes);
        lemma_step_preserves_wf(prev, total_size, last.id, last.cumulative_bytes);
    }
}

/// The completion signal is raised exactly once over any run that flips
/// the flag, and never again afterwards.
pub proof fn lemma_signal_exactly_once(v: AggState, total_size: u64, msgs: Seq<ProgressMessage>)
    ensures
        signal_count(v, total_size, msgs) == if run(v, total_size, msgs).finished && !v.finished {
            1int
        } else {
            0int
        },
    decreases msgs.len(),
{
    if msgs.len() > 0 {
        let m = msgs.drop_last();
        let last = msgs.last();
        lemma_signal_exactly_once(v, total_size, m);
        let prev = run(v, total_size, m);
        if step_signal(prev, total_size, last.id, last.cumulative_bytes) {
            if v.finished {
                lemma_finished_monotone(v, total_size, m);
            }
        }
    }
}

/// When the run's final stored values are exactly the discovered sizes and
/// the denominator is their sum, the final total equals the denominator,
/// the run ends signalled, and the completion signal was raised exactly
/// once.
pub proof fn lemma_completion(
    v: AggState,
    total_size: u64,
    msgs: Seq<ProgressMessage>,
    sizes: Seq<u64>,
)
    requires
        v.wf(),
        !v.finished,
        msgs.len() > 0,
        run(v, total_size, msgs).bytes == sizes,
        total_size as int == sum_u64(sizes),
    ensures
        run(v, total_size, msgs).total() == total_size as int,
        run(v, total_size, msgs).finished,
        signal_count(v, total_size, msgs) == 1,
{
    let fin = run(v, total_size, msgs);
    let prev = run(v, total_size, msgs.drop_last());
    let last = msgs.last();
    assert(fin == step(prev, total_size, last.id, last.cumulative_bytes));
    if !prev.finished {
        assert(sum_u64(step_bytes(prev, last.id, last.cumulative_bytes)) >= total_size);
        assert(step_signal(prev, total_size, last.id, last.cumulative_bytes));
    }
    assert(fin.finished);
    lemma_signal_exactly_once(v, total_size, msgs);
}

/// While no stored value exceeds the size of its file, the combined total
/// cannot exceed the denominator, the sum of all discovered sizes.
pub proof fn lemma_total_bounded(v: AggState, sizes: Seq<u64>)
    requires
        v.wf(),
        v.bytes.len() == sizes.len(),
        forall|i: int| 0 <= i < sizes.len() ==> v.bytes[i] <= sizes[i],
    ensures
        v.total() <= sum_u64(sizes),
{
    lemma_sum_u64_pointwise_le(v.bytes, sizes);
}

/// The index of `id` in `ids`, scanning from the end, if it occurs.
fn find_index(ids: &Vec<u64>, id: u64) -> (r: Option<usize>)
    ensures
        match r {
            Some(i) => i == last_index_of(ids@, id),
            None => last_index_of(ids@, id) == -1,
        },
{
    let n = ids.len();
    let mut i = n;
    while i > 0
        invariant
            i <= n,
            n == ids@.len(),
            forall|k: int| i <= k < ids@.len() ==> ids@[k] != id,
        decreases i,
    {
        i = i - 1;
        if ids[i] == id {
            proof {
                lemma_last_index_of(ids@, id);
            }
            return Some(i);
        }
    }
    proof {
        lemma_last_index_of(ids@, id);
    }
    None
}

} // verus!
