use vstd::prelude::*;

use crate::messages::{dup_words, ProcessMessage, ProcessMessageView};
use crate::step::{Params, ParamsView, TraceStep, TraceStepView};

verus! {

/// The mode in which the join operates.
/// - `AND`: waits for all expected inputs before aggregating.
/// - `OR`: produces an output as soon as any one input arrives.
#[derive(Clone, Copy, PartialEq, Eq, Structural)]
pub enum JoinMode {
    AND,
    OR,
}

impl Default for JoinMode {
    fn default() -> (r: Self)
        ensures
            r == JoinMode::AND,
    {
        JoinMode::AND
    }
}

/// How the joined data is shaped. Only `Flatten` (concatenation) is
/// exercised; `Nest` is reserved.
#[derive(Clone, Copy, PartialEq, Eq, Structural)]
pub enum StepJoinPointOutputMode {
    Flatten,
    Nest,
}

impl Default for StepJoinPointOutputMode {
    fn default() -> (r: Self)
        ensures
            r == StepJoinPointOutputMode::Flatten,
    {
        StepJoinPointOutputMode::Flatten
    }
}

/// One partially assembled join result: for correlation key `key`, the data
/// received so far, slot `i` holding the data delivered under expected input
/// name `i`.
pub struct PendingEntry {
    pub key: u64,
    pub parts: Vec<Option<Vec<u64>>>,
}

pub ghost struct PendingEntryView {
    pub key: u64,
    pub parts: Seq<Option<Seq<u64>>>,
}

impl View for PendingEntry {
    type V = PendingEntryView;

    open spec fn view(&self) -> PendingEntryView {
        PendingEntryView {
            key: self.key,
            parts: Seq::new(
                self.parts@.len(),
                |i: int|
                    match self.parts@[i] {
                        Some(v) => Some(v@),
                        None => None,
                    },
            ),
        }
    }
}

/// Fan-in join: correlates messages by key (`batch_id` if present, else
/// `id`) across the expected input names.
///
/// A late arrival for a key that has already been emitted reopens that key
/// as if it were fresh; nothing distinguishes the two by design. In OR mode
/// a key whose remaining branches never arrive leaves its countdown entry
/// behind; long-lived streams should bound this table.
pub struct StepJoinPoint {
    pub name: String,
    pub output_name: String,
    /// Input names this join must see (the inputs of its declaration).
    pub expected_nodes: Vec<String>,
    pub mode: JoinMode,
    pub output_mode: StepJoinPointOutputMode,
    /// AND mode: per-key partial data.
    pub pending: Vec<PendingEntry>,
    /// OR mode: per-key count of branches still to arrive (and be dropped).
    pub completed_ids: Vec<(u64, usize)>,
    pub params: Params,
}

pub ghost struct StepJoinPointView {
    pub name: Seq<char>,
    pub output_name: Seq<char>,
    pub expected: Seq<Seq<char>>,
    pub mode: JoinMode,
    pub output_mode: StepJoinPointOutputMode,
    pub pending: Seq<PendingEntryView>,
    pub completed: Seq<(u64, usize)>,
    pub params: ParamsView,
}

impl View for StepJoinPoint {
    type V = StepJoinPointView;

    open spec fn view(&self) -> StepJoinPointView {
        StepJoinPointView {
            name: self.name@,
            output_name: self.output_name@,
            expected: Seq::new(self.expected_nodes@.len(), |i: int| self.expected_nodes@[i]@),
            mode: self.mode,
            output_mode: self.output_mode,
            pending: Seq::new(self.pending@.len(), |i: int| self.pending@[i]@),
            completed: self.completed_ids@,
            params: self.params@,
        }
    }
}

// ---------------------------------------------------------------------------
// The join's transition, written over views.
// ---------------------------------------------------------------------------

/// A part table with every slot empty.
pub open spec fn empty_parts(n: nat) -> Seq<Option<Seq<u64>>> {
    Seq::new(n, |i: int| None)
}

/// Records `data` in every slot whose expected name is `node`.
pub open spec fn fill_parts(
    parts: Seq<Option<Seq<u64>>>,
    expected: Seq<Seq<char>>,
    node: Seq<char>,
    data: Seq<u64>,
) -> Seq<Option<Seq<u64>>> {
    Seq::new(
        parts.len(),
        |i: int|
            if expected[i] == node {
                Some(data)
            } else {
                parts[i]
            },
    )
}

/// Every expected input has been delivered.
pub open spec fn all_filled(parts: Seq<Option<Seq<u64>>>) -> bool {
    forall|i: int| 0 <= i < parts.len() ==> parts[i] is Some
}

/// Concatenation of the first `k` delivered parts, in declared order.
pub open spec fn concat_parts_upto(parts: Seq<Option<Seq<u64>>>, k: int) -> Seq<u64>
    decreases k,
{
    if k <= 0 {
        Seq::empty()
    } else {
        concat_parts_upto(parts, k - 1) + match parts[k - 1] {
            Some(v) => v,
            None => Seq::empty(),
        }
    }
}

/// Concatenation of the delivered parts, in declared order.
pub open spec fn concat_parts(parts: Seq<Option<Seq<u64>>>) -> Seq<u64> {
    concat_parts_upto(parts, parts.len() as int)
}

/// Some pending entry carries `key`.
pub open spec fn seq_has_key(pending: Seq<PendingEntryView>, key: u64) -> bool {
    exists|p: int| 0 <= p < pending.len() && pending[p].key == key
}

/// The index of the pending entry carrying `key` (meaningful when present).
pub open spec fn seq_key_index(pending: Seq<PendingEntryView>, key: u64) -> int {
    choose|p: int| 0 <= p < pending.len() && pending[p].key == key
}

/// Some countdown entry carries `key`.
pub open spec fn cseq_has_key(completed: Seq<(u64, usize)>, key: u64) -> bool {
    exists|q: int| 0 <= q < completed.len() && completed[q].0 == key
}

/// The index of the countdown entry carrying `key` (meaningful when present).
pub open spec fn cseq_key_index(completed: Seq<(u64, usize)>, key: u64) -> int {
    choose|q: int| 0 <= q < completed.len() && completed[q].0 == key
}

impl StepJoinPointView {
    /// Keys in `pending` are unique, part tables match the expected names,
    /// and no stored entry is already complete; keys in `completed` are
    /// unique with counts at least one.
    pub open spec fn wf(self) -> bool {
        &&& forall|p: int, q: int|
            0 <= p < q < self.pending.len() ==> self.pending[p].key != self.pending[q].key
        &&& forall|p: int|
            0 <= p < self.pending.len() ==> (#[trigger] self.pending[p]).parts.len()
                == self.expected.len()
        &&& forall|p: int| 0 <= p < self.pending.len() ==> !all_filled(self.pending[p].parts)
        &&& forall|p: int, q: int|
            0 <= p < q < self.completed.len() ==> self.completed[p].0 != self.completed[q].0
        &&& forall|p: int| 0 <= p < self.completed.len() ==> (#[trigger] self.completed[p]).1 >= 1
    }

    /// The trace record this join appends. The engine does not read clocks,
    /// so recorded durations are zero; timing is the embedder's concern.
    pub open spec fn trace_rec(self) -> TraceStepView {
        TraceStepView { node_id: self.name, duration_micros: 0, params: self.params }
    }

    /// The message this join emits for key `key` with payload `data`,
    /// with batch fields taken from the triggering message `m`.
    pub open spec fn emission(self, key: u64, data: Seq<u64>, m: ProcessMessageView) -> ProcessMessageView {
        ProcessMessageView {
            id: key,
            node_id: self.output_name,
            data: data,
            batch_id: m.batch_id,
            batch_total: m.batch_total,
            trace: m.trace.push(self.trace_rec()),
        }
    }

    /// The AND transition: record the arrival, emit once the part table for
    /// its key is complete.
    pub open spec fn transition_and(self, m: ProcessMessageView) -> (StepJoinPointView, Option<
        ProcessMessageView,
    >) {
        let key = m.key();
        let had = seq_has_key(self.pending, key);
        let p = seq_key_index(self.pending, key);
        let parts0 = if had {
            self.pending[p].parts
        } else {
            empty_parts(self.expected.len())
        };
        let rest = if had {
            self.pending.remove(p)
        } else {
            self.pending
        };
        let parts1 = fill_parts(parts0, self.expected, m.node_id, m.data);
        if all_filled(parts1) {
            (
                StepJoinPointView { pending: rest, ..self },
                Some(self.emission(key, concat_parts(parts1), m)),
            )
        } else {
            (
                StepJoinPointView {
                    pending: rest.push(PendingEntryView { key, parts: parts1 }),
                    ..self
                },
                None,
            )
        }
    }

    /// The OR transition: the first arrival for a key is emitted verbatim;
    /// later arrivals for it are counted down and dropped.
    pub open spec fn transition_or(self, m: ProcessMessageView) -> (StepJoinPointView, Option<
        ProcessMessageView,
    >) {
        let key = m.key();
        let had = cseq_has_key(self.completed, key);
        let q = cseq_key_index(self.completed, key);
        if had {
            let cnt = self.completed[q].1;
            if cnt > 1 {
                (
                    StepJoinPointView {
                        completed: self.completed.update(q, (key, (cnt - 1) as usize)),
                        ..self
                    },
                    None,
                )
            } else {
                (StepJoinPointView { completed: self.completed.remove(q), ..self }, None)
            }
        } else {
            let out = self.emission(key, m.data, m);
            if self.expected.len() > 1 {
                (
                    StepJoinPointView {
                        completed: self.completed.push(
                            (key, (self.expected.len() - 1) as usize),
                        ),
                        ..self
                    },
                    Some(out),
                )
            } else {
                (self, Some(out))
            }
        }
    }

    /// One handling step of the join.
    pub open spec fn transition(self, m: ProcessMessageView) -> (StepJoinPointView, Option<
        ProcessMessageView,
    >) {
        match self.mode {
            JoinMode::AND => self.transition_and(m),
            JoinMode::OR => self.transition_or(m),
        }
    }
}

pub open spec fn view_of_opt_msg(r: Option<ProcessMessage>) -> Option<ProcessMessageView> {
    match r {
        Some(m) => Some(m@),
        None => None,
    }
}

/// Finds the pending entry for `key`, if any.
fn find_pending_index(pending: &Vec<PendingEntry>, key: u64) -> (r: Option<usize>)
    ensures
        match r {
            Some(i) => i < pending@.len() && pending@[i as int]@.key == key,
            None => forall|p: int| 0 <= p < pending@.len() ==> pending@[p]@.key != key,
        },
{
    let mut p: usize = 0;
    while p < pending.len()
        invariant
            p <= pending.len(),
            forall|pp: int| 0 <= pp < p ==> pending@[pp]@.key != key,
        decreases pending.len() - p,
    {
        if pending[p].key == key {
            return Some(p);
        }
        p = p + 1;
    }
    None
}

/// Finds the countdown entry for `key`, if any.
fn find_completed_index(completed: &Vec<(u64, usize)>, key: u64) -> (r: Option<usize>)
    ensures
        match r {
            Some(i) => i < completed@.len() && completed@[i as int].0 == key,
            None => forall|q: int| 0 <= q < completed@.len() ==> completed@[q].0 != key,
        },
{
    let mut q: usize = 0;
    while q < completed.len()
        invariant
            q <= completed.len(),
            forall|qq: int| 0 <= qq < q ==> completed@[qq].0 != key,
        decreases completed.len() - q,
    {
        if completed[q].0 == key {
            return Some(q);
        }
        q = q + 1;
    }
    None
}

impl StepJoinPoint {
    /// Parses the join mode from the `mode` parameter; anything but "OR"
    /// (including absence) means AND.
    pub fn parse_join_mode(params: &Params) -> (r: JoinMode)
        ensures
            r == (if params@.mode == Some("OR"@) {
                JoinMode::OR
            } else {
                JoinMode::AND
            }),
    {
        match &params.mode {
            Some(m) => {
                let t = "OR".to_owned();
                if *m == t {
                    JoinMode::OR
                } else {
                    JoinMode::AND
                }
            },
            None => JoinMode::AND,
        }
    }

    /// Parses the output mode from the `output_mode` parameter; anything but
    /// "NEST" (including absence) means Flatten.
    pub fn parse_output_mode(params: &Params) -> (r: StepJoinPointOutputMode)
        ensures
            r == (if params@.output_mode == Some("NEST"@) {
                StepJoinPointOutputMode::Nest
            } else {
                StepJoinPointOutputMode::Flatten
            }),
    {
        match &params.output_mode {
            Some(m) => {
                let t = "NEST".to_owned();
                if *m == t {
                    StepJoinPointOutputMode::Nest
                } else {
                    StepJoinPointOutputMode::Flatten
                }
            },
            None => StepJoinPointOutputMode::Flatten,
        }
    }

    /// Builds a join over the given expected input names.
    pub fn new_from_params(
        name: String,
        output_name: String,
        expected_nodes: Vec<String>,
        params: Params,
    ) -> (r: StepJoinPoint)
        ensures
            r@.name == name@,
            r@.output_name == output_name@,
            r@.expected == Seq::new(expected_nodes@.len(), |i: int| expected_nodes@[i]@),
            r@.mode == (if params@.mode == Some("OR"@) {
                JoinMode::OR
            } else {
                JoinMode::AND
            }),
            r@.output_mode == (if params@.output_mode == Some("NEST"@) {
                StepJoinPointOutputMode::Nest
            } else {
                StepJoinPointOutputMode::Flatten
            }),
            r@.pending == Seq::<PendingEntryView>::empty(),
            r@.completed == Seq::<(u64, usize)>::empty(),
            r@.params == params@,
            r@.wf(),
    {
        let mode = StepJoinPoint::parse_join_mode(&params);
        let output_mode = StepJoinPoint::parse_output_mode(&params);
        let r = StepJoinPoint {
            name,
            output_name,
            expected_nodes,
            mode,
            output_mode,
            pending: Vec::new(),
            completed_ids: Vec::new(),
            params,
        };
        assert(r@.pending =~= Seq::<PendingEntryView>::empty());
        assert(r@.completed =~= Seq::<(u64, usize)>::empty());
        r
    }

    /// Handles one message: the state and emission follow `transition`.
    pub fn handle(&mut self, msg: ProcessMessage) -> (r: Option<ProcessMessage>)
        requires
            old(self)@.wf(),
        ensures
            final(self)@.wf(),
            (final(self)@, view_of_opt_msg(r)) == old(self)@.transition(msg@),
    {
        match self.mode {
            JoinMode::AND => self.handle_and(msg),
            JoinMode::OR => self.handle_or(msg),
        }
    }

    fn handle_and(&mut self, msg: ProcessMessage) -> (r: Option<ProcessMessage>)
        requires
            old(self)@.wf(),
            old(self).mode == JoinMode::AND,
        ensures
            final(self)@.wf(),
            (final(self)@, view_of_opt_msg(r)) == old(self)@.transition(msg@),
    {
        let ghost pre = self@;
        let ghost m = msg@;
        let key = match msg.batch_id {
            Some(b) => b,
            None => msg.id,
        };
        assert(key == m.key());

        // Take the pending entry for this key out of the table, if present.
        let found = find_pending_index(&self.pending, key);
        proof {
            if found is None {
                assert(forall|pp: int|
                    0 <= pp < pre.pending.len() ==> pre.pending[pp].key != key);
            }
        }
        let ghost had = seq_has_key(pre.pending, key);
        let ghost pidx = seq_key_index(pre.pending, key);

        let mut parts: Vec<Option<Vec<u64>>>;
        match found {
            Some(i) => {
                proof {
                    assert(pre.pending[i as int].key == key);
                    assert(had);
                    assert(pidx == i as int);
                }
                let entry = self.pending.remove(i);
                parts = entry.parts;
                assert(self@.pending =~= pre.pending.remove(pidx));
                assert(view_of_parts(parts@) =~= pre.pending[pidx].parts);
            },
            None => {
                proof {
                    assert(!had);
                }
                parts = Vec::new();
                let mut k: usize = 0;
                let n = self.expected_nodes.len();
                while k < n
                    invariant
                        k <= n,
                        parts@.len() == k,
                        forall|kk: int| 0 <= kk < k ==> parts@[kk] is None,
                    decreases n - k,
                {
                    parts.push(None);
                    k = k + 1;
                }
                assert(self@.pending =~= pre.pending);
                assert(view_of_parts(parts@) =~= empty_parts(pre.expected.len()));
            },
        }
        let ghost parts0 = if had {
            pre.pending[pidx].parts
        } else {
            empty_parts(pre.expected.len())
        };
        let ghost rest = if had {
            pre.pending.remove(pidx)
        } else {
            pre.pending
        };
        proof {
            assert(view_of_parts(parts@) == parts0);
            assert(self@.pending == rest);
            assert(self@ == (StepJoinPointView { pending: rest, ..pre }));
            if had {
                pre.pending.remove_ensures(pidx);
            }
        }

        // Record the arrival in every slot declared under its name.
        let ghost parts1 = fill_parts(parts0, pre.expected, m.node_id, m.data);
        let n = self.expected_nodes.len();
        assert(parts@.len() == n);
        let mut k: usize = 0;
        while k < n
            invariant
                k <= n,
                self@ == (StepJoinPointView { pending: rest, ..pre }),
                n == pre.expected.len(),
                msg@ == m,
                parts@.len() == n,
                parts1 == fill_parts(parts0, pre.expected, m.node_id, m.data),
                parts0.len() == n,
                forall|kk: int| 0 <= kk < k ==> view_of_parts(parts@)[kk] == parts1[kk],
                forall|kk: int| k <= kk < n ==> view_of_parts(parts@)[kk] == parts0[kk],
            decreases n - k,
        {
            assert(pre.expected[k as int] == self.expected_nodes@[k as int]@);
            if self.expected_nodes[k] == msg.node_id {
                let d = dup_words(&msg.data);
                parts.set(k, Some(d));
                assert(view_of_parts(parts@)[k as int] == parts1[k as int]);
            } else {
                assert(view_of_parts(parts@)[k as int] == parts1[k as int]);
            }
            k = k + 1;
        }
        proof {
            assert(view_of_parts(parts@) =~= parts1);
        }

        // Complete?
        let mut complete: bool = true;
        let mut k2: usize = 0;
        while k2 < n
            invariant
                k2 <= n,
                parts@.len() == n,
                view_of_parts(parts@) == parts1,
                n == parts1.len(),
                complete == forall|kk: int| 0 <= kk < k2 ==> parts1[kk] is Some,
            decreases n - k2,
        {
            match &parts[k2] {
                Some(_) => {
                    assert(parts1[k2 as int] is Some);
                },
                None => {
                    assert(!(parts1[k2 as int] is Some));
                    complete = false;
                },
            }
            k2 = k2 + 1;
        }
        assert(complete == all_filled(parts1));

        if complete {
            // Emit the concatenation in declared order.
            let mut data: Vec<u64> = Vec::new();
            let mut k3: usize = 0;
            while k3 < n
                invariant
                    k3 <= n,
                    parts@.len() == n,
                    view_of_parts(parts@) == parts1,
                    n == parts1.len(),
                    data@ == concat_parts_upto(parts1, k3 as int),
                decreases n - k3,
            {
                match &parts[k3] {
                    Some(v) => {
                        let mut w: usize = 0;
                        let ghost base = data@;
                        while w < v.len()
                            invariant
                                w <= v.len(),
                                data@ =~= base + v@.subrange(0, w as int),
                            decreases v.len() - w,
                        {
                            data.push(v[w]);
                            w = w + 1;
                        }
                        assert(v@.subrange(0, v@.len() as int) =~= v@);
                        assert(parts1[k3 as int] == Some(v@));
                    },
                    None => {
                        assert(parts1[k3 as int] is None);
                        assert(data@ =~= data@ + Seq::<u64>::empty());
                    },
                }
                k3 = k3 + 1;
            }
            assert(data@ == concat_parts(parts1));

            let rec = TraceStep::new(self.name.as_str(), 0, self.params.duplicate());
            assert(rec@ == pre.trace_rec());
            let mut trace = msg.trace;
            trace.add_step(rec);
            let out = ProcessMessage {
                id: key,
                node_id: self.output_name.clone(),
                data,
                batch_id: msg.batch_id,
                batch_total: msg.batch_total,
                trace,
            };
            assert(out@ == pre.emission(key, concat_parts(parts1), m));
            assert(self@ == (StepJoinPointView { pending: rest, ..pre }));
            Some(out)
        } else {
            self.pending.push(PendingEntry { key, parts });
            assert(self@.pending =~= rest.push(PendingEntryView { key, parts: parts1 }));
            proof {
                let post = self@.pending;
                assert forall|pp: int, qq: int| 0 <= pp < qq < post.len() implies post[pp].key
                    != post[qq].key by {
                    if qq == post.len() - 1 {
                        // The fresh entry's key is absent from the remainder.
                        assert(post[qq].key == key);
                        if had {
                            if pp < pidx {
                                assert(rest[pp] == pre.pending[pp]);
                            } else {
                                assert(rest[pp] == pre.pending[pp + 1]);
                            }
                        }
                    } else {
                        if had {
                            pre.pending.remove_ensures(pidx);
                        }
                    }
                }
            }
            None
        }
    }

    fn handle_or(&mut self, msg: ProcessMessage) -> (r: Option<ProcessMessage>)
        requires
            old(self)@.wf(),
            old(self).mode == JoinMode::OR,
        ensures
            final(self)@.wf(),
            (final(self)@, view_of_opt_msg(r)) == old(self)@.transition(msg@),
    {
        let ghost pre = self@;
        let ghost m = msg@;
        let key = match msg.batch_id {
            Some(b) => b,
            None => msg.id,
        };
        assert(key == m.key());

        let found = find_completed_index(&self.completed_ids, key);
        let ghost had = cseq_has_key(pre.completed, key);
        let ghost qidx = cseq_key_index(pre.completed, key);

        match found {
            Some(i) => {
                proof {
                    assert(pre.completed[i as int].0 == key);
                    assert(had);
                    assert(qidx == i as int);
                }
                let cnt = self.completed_ids[i].1;
                assert(cnt >= 1);
                if cnt > 1 {
                    self.completed_ids.set(i, (key, cnt - 1));
                    assert(self@.completed =~= pre.completed.update(
                        i as int,
                        (key, (cnt - 1) as usize),
                    ));
                } else {
                    self.completed_ids.remove(i);
                    assert(self@.completed =~= pre.completed.remove(i as int));
                    proof {
                        pre.completed.remove_ensures(i as int);
                    }
                }
                assert(self@.pending =~= pre.pending);
                None
            },
            None => {
                proof {
                    assert(forall|qq: int|
                        0 <= qq < pre.completed.len() ==> pre.completed[qq].0 != key);
                    assert(!had);
                }
                let data = dup_words(&msg.data);
                let rec = TraceStep::new(self.name.as_str(), 0, self.params.duplicate());
                assert(rec@ == pre.trace_rec());
                let mut trace = msg.trace;
                trace.add_step(rec);
                let out = ProcessMessage {
                    id: key,
                    node_id: self.output_name.clone(),
                    data,
                    batch_id: msg.batch_id,
                    batch_total: msg.batch_total,
                    trace,
                };
                assert(out@ == pre.emission(key, m.data, m));
                if self.expected_nodes.len() > 1 {
                    let remaining = self.expected_nodes.len() - 1;
                    self.completed_ids.push((key, remaining));
                    assert(self@.completed =~= pre.completed.push(
                        (key, (pre.expected.len() - 1) as usize),
                    ));
                    proof {
                        let post = self@.completed;
                        assert forall|pp: int, qq: int| 0 <= pp < qq < post.len() implies post[pp].0
                            != post[qq].0 by {
                            if qq == post.len() - 1 {
                                assert(post[pp] == pre.completed[pp]);
                            }
                        }
                    }
                }
                assert(self@.pending =~= pre.pending);
                Some(out)
            },
        }
    }
}

// ---------------------------------------------------------------------------
// Laws of the join, stated over runs of its transition.
// ---------------------------------------------------------------------------

/// Folding a sequence of messages through the join, collecting emissions.
pub open spec fn run_join(j: StepJoinPointView, msgs: Seq<ProcessMessageView>) -> (
    StepJoinPointView,
    Seq<ProcessMessageView>,
)
    decreases msgs.len(),
{
    if msgs.len() == 0 {
        (j, Seq::empty())
    } else {
        let (j1, out1) = j.transition(msgs[0]);
        let (j2, rest) = run_join(j1, msgs.drop_first());
        (
            j2,
            match out1 {
                Some(o) => seq![o] + rest,
                None => rest,
            },
        )
    }
}

/// The part table after the given deliveries.
pub open spec fn parts_fold(
    parts0: Seq<Option<Seq<u64>>>,
    expected: Seq<Seq<char>>,
    msgs: Seq<ProcessMessageView>,
) -> Seq<Option<Seq<u64>>>
    decreases msgs.len(),
{
    if msgs.len() == 0 {
        parts0
    } else {
        parts_fold(
            fill_parts(parts0, expected, msgs[0].node_id, msgs[0].data),
            expected,
            msgs.drop_first(),
        )
    }
}

/// The data of the last message in `msgs` delivered under `name`, if any.
pub open spec fn last_data_for(name: Seq<char>, msgs: Seq<ProcessMessageView>) -> Option<Seq<u64>>
    decreases msgs.len(),
{
    if msgs.len() == 0 {
        None
    } else {
        match last_data_for(name, msgs.drop_first()) {
            Some(d) => Some(d),
            None => if msgs[0].node_id == name {
                Some(msgs[0].data)
            } else {
                None
            },
        }
    }
}

/// Whether the join holds a pending entry for `key`.
pub open spec fn has_pending(j: StepJoinPointView, key: u64) -> bool {
    seq_has_key(j.pending, key)
}

/// The part table the join holds for `key` (empty slots if no entry).
pub open spec fn pending_parts_for(j: StepJoinPointView, key: u64) -> Seq<Option<Seq<u64>>> {
    if seq_has_key(j.pending, key) {
        j.pending[seq_key_index(j.pending, key)].parts
    } else {
        empty_parts(j.expected.len())
    }
}

/// A slot of the folded part table holds the last delivery under its name,
/// or what it held before.
proof fn lemma_parts_fold_slot(
    parts0: Seq<Option<Seq<u64>>>,
    expected: Seq<Seq<char>>,
    msgs: Seq<ProcessMessageView>,
    i: int,
)
    requires
        0 <= i < expected.len(),
        parts0.len() == expected.len(),
    ensures
        parts_fold(parts0, expected, msgs).len() == expected.len(),
        parts_fold(parts0, expected, msgs)[i] == match last_data_for(expected[i], msgs) {
            Some(d) => Some(d),
            None => parts0[i],
        },
    decreases msgs.len(),
{
    if msgs.len() > 0 {
        let parts1 = fill_parts(parts0, expected, msgs[0].node_id, msgs[0].data);
        lemma_parts_fold_slot(parts1, expected, msgs.drop_first(), i);
    }
}

proof fn lemma_parts_fold_len(
    parts0: Seq<Option<Seq<u64>>>,
    expected: Seq<Seq<char>>,
    msgs: Seq<ProcessMessageView>,
)
    requires
        parts0.len() == expected.len(),
    ensures
        parts_fold(parts0, expected, msgs).len() == expected.len(),
    decreases msgs.len(),
{
    if msgs.len() > 0 {
        lemma_parts_fold_len(
            fill_parts(parts0, expected, msgs[0].node_id, msgs[0].data),
            expected,
            msgs.drop_first(),
        );
    }
}

/// Core induction for the AND join: feeding messages that all carry key `K`
/// and name an expected input, where no prefix completes the part table,
/// buffers everything without emitting, or emits exactly at the end.
proof fn lemma_join_and_run(j: StepJoinPointView, msgs: Seq<ProcessMessageView>, k: u64)
    requires
        j.wf(),
        j.mode == JoinMode::AND,
        j.expected.len() > 0,
        forall|t: int| 0 <= t < msgs.len() ==> (#[trigger] msgs[t]).key() == k,
        forall|t: int| 0 <= t < msgs.len() ==> j.expected.contains((#[trigger] msgs[t]).node_id),
        forall|t: int|
            0 <= t < msgs.len() ==> !all_filled(
                parts_fold(pending_parts_for(j, k), j.expected, #[trigger] msgs.take(t)),
            ),
    ensures
        ({
            let (j2, outs) = run_join(j, msgs);
            let parts_n = parts_fold(pending_parts_for(j, k), j.expected, msgs);
            &&& j2.wf()
            &&& j2.mode == j.mode
            &&& j2.expected == j.expected
            &&& j2.output_name == j.output_name
            &&& j2.name == j.name
            &&& j2.params == j.params
            &&& j2.completed == j.completed
            &&& if msgs.len() == 0 {
                j2 == j && outs == Seq::<ProcessMessageView>::empty()
            } else if all_filled(parts_n) {
                &&& outs == seq![j.emission(k, concat_parts(parts_n), msgs.last())]
                &&& !has_pending(j2, k)
            } else {
                &&& outs == Seq::<ProcessMessageView>::empty()
                &&& has_pending(j2, k)
                &&& pending_parts_for(j2, k) == parts_n
            }
        }),
    decreases msgs.len(),
{
    lemma_parts_fold_len(pending_parts_for(j, k), j.expected, msgs);
    if msgs.len() > 0 {
        let m0 = msgs[0];
        let rest = msgs.drop_first();
        let parts0 = pending_parts_for(j, k);
        let parts1 = fill_parts(parts0, j.expected, m0.node_id, m0.data);
        let had = seq_has_key(j.pending, k);
        let pidx = seq_key_index(j.pending, k);
        let (j1, out1) = j.transition(m0);
        assert(j1.wf()) by {
            lemma_transition_and_wf(j, m0);
        }
        // The one-message prefix folds to `parts1`.
        let s1 = msgs.take(1);
        assert(s1.len() == 1);
        assert(s1[0] == m0);
        assert(s1.drop_first() =~= Seq::<ProcessMessageView>::empty());
        assert(parts_fold(parts0, j.expected, s1) == parts_fold(
            fill_parts(parts0, j.expected, s1[0].node_id, s1[0].data),
            j.expected,
            s1.drop_first(),
        ));
        assert(parts_fold(parts1, j.expected, s1.drop_first()) == parts1);
        assert(parts_fold(parts0, j.expected, s1) == parts1);

        if all_filled(parts1) {
            // The transition emits at once; by the prefix conditions this can
            // only be the last message.
            assert(msgs.len() == 1) by {
                if msgs.len() > 1 {
                    assert(!all_filled(parts_fold(parts0, j.expected, msgs.take(1))));
                }
            }
            assert(out1 == Some(j.emission(k, concat_parts(parts1), m0)));
            assert(msgs =~= s1);
            assert(parts_fold(parts0, j.expected, msgs) == parts1);
            assert(msgs.last() == m0);
            assert(run_join(j, msgs).1 =~= seq![j.emission(k, concat_parts(parts1), m0)]);
            assert(j1.pending == (if had {
                j.pending.remove(pidx)
            } else {
                j.pending
            }));
            assert(!has_pending(j1, k)) by {
                if seq_has_key(j1.pending, k) {
                    let p2 = seq_key_index(j1.pending, k);
                    assert(0 <= p2 < j1.pending.len() && j1.pending[p2].key == k);
                    if had {
                        assert(0 <= pidx < j.pending.len() && j.pending[pidx].key == k);
                        j.pending.remove_ensures(pidx);
                        if p2 < pidx {
                            assert(j1.pending[p2] == j.pending[p2]);
                        } else {
                            assert(j1.pending[p2] == j.pending[p2 + 1]);
                        }
                        assert(false);
                    } else {
                        assert(seq_has_key(j.pending, k));
                        assert(false);
                    }
                }
            }
            assert(run_join(j, msgs).0 == j1);
        } else {
            // The transition buffers the arrival under key k.
            assert(out1 is None);
            assert(j1.pending == (if had {
                j.pending.remove(pidx)
            } else {
                j.pending
            }).push(PendingEntryView { key: k, parts: parts1 }));
            assert(has_pending(j1, k)) by {
                assert(j1.pending[j1.pending.len() - 1].key == k);
            }
            assert(pending_parts_for(j1, k) == parts1) by {
                let p = seq_key_index(j1.pending, k);
                assert(0 <= p < j1.pending.len() && j1.pending[p].key == k);
                if p != j1.pending.len() - 1 {
                    assert(j1.pending[p].key != j1.pending[j1.pending.len() - 1].key);
                    assert(false);
                }
            }
            // Prefix conditions carry over to the remainder.
            assert forall|t: int| 0 <= t < rest.len() implies !all_filled(
                parts_fold(pending_parts_for(j1, k), j1.expected, #[trigger] rest.take(t)),
            ) by {
                assert(msgs.take(t + 1).drop_first() =~= rest.take(t));
                assert(msgs.take(t + 1)[0] == m0);
                assert(parts_fold(parts0, j.expected, msgs.take(t + 1)) == parts_fold(
                    fill_parts(
                        parts0,
                        j.expected,
                        msgs.take(t + 1)[0].node_id,
                        msgs.take(t + 1)[0].data,
                    ),
                    j.expected,
                    msgs.take(t + 1).drop_first(),
                ));
                assert(parts_fold(parts0, j.expected, msgs.take(t + 1)) == parts_fold(
                    parts1,
                    j.expected,
                    rest.take(t),
                ));
                assert(!all_filled(parts_fold(parts0, j.expected, msgs.take(t + 1))));
            }
            assert forall|t: int| 0 <= t < rest.len() implies (#[trigger] rest[t]).key() == k by {
                assert(rest[t] == msgs[t + 1]);
            }
            assert forall|t: int| 0 <= t < rest.len() implies j1.expected.contains(
                (#[trigger] rest[t]).node_id,
            ) by {
                assert(rest[t] == msgs[t + 1]);
            }
            lemma_join_and_run(j1, rest, k);
            // The full fold factors through the first fill.
            assert(parts_fold(parts0, j.expected, msgs) == parts_fold(parts1, j.expected, rest));
            if rest.len() == 0 {
                assert(run_join(j, msgs).1 =~= Seq::<ProcessMessageView>::empty());
                assert(parts_fold(parts1, j.expected, rest) == parts1);
            } else {
                assert(rest.last() == msgs.last());
                let parts_n = parts_fold(parts0, j.expected, msgs);
                if all_filled(parts_n) {
                    assert(j1.emission(k, concat_parts(parts_n), msgs.last()) == j.emission(
                        k,
                        concat_parts(parts_n),
                        msgs.last(),
                    ));
                    assert(run_join(j, msgs).1 =~= seq![
                        j.emission(k, concat_parts(parts_n), msgs.last()),
                    ]);
                } else {
                    assert(run_join(j, msgs).1 =~= Seq::<ProcessMessageView>::empty());
                }
            }
        }
    }
}

/// The AND transition preserves well-formedness.
proof fn lemma_transition_and_wf(j: StepJoinPointView, m: ProcessMessageView)
    requires
        j.wf(),
        j.mode == JoinMode::AND,
    ensures
        j.transition(m).0.wf(),
{
    let key = m.key();
    let had = seq_has_key(j.pending, key);
    let pidx = seq_key_index(j.pending, key);
    let rest = if had {
        j.pending.remove(pidx)
    } else {
        j.pending
    };
    if had {
        j.pending.remove_ensures(pidx);
    }
    let parts0 = if had {
        j.pending[pidx].parts
    } else {
        empty_parts(j.expected.len())
    };
    let parts1 = fill_parts(parts0, j.expected, m.node_id, m.data);
    let (j1, out) = j.transition(m);
    if all_filled(parts1) {
        assert(j1.pending == rest);
        assert forall|p: int, q: int| 0 <= p < q < j1.pending.len() implies j1.pending[p].key
            != j1.pending[q].key by {}
    } else {
        assert(j1.pending == rest.push(PendingEntryView { key, parts: parts1 }));
        assert forall|p: int, q: int| 0 <= p < q < j1.pending.len() implies j1.pending[p].key
            != j1.pending[q].key by {
            if q == j1.pending.len() - 1 {
                if had {
                    if p < pidx {
                        assert(rest[p] == j.pending[p]);
                    } else {
                        assert(rest[p] == j.pending[p + 1]);
                    }
                }
            }
        }
    }
}

/// Join AND completeness, one direction: if some expected input never
/// arrives for key `K`, the join never emits for it.
///
/// Law: for any key, the AND join emits only when every name in its
/// expected inputs has been delivered for that key.
pub proof fn lemma_join_and_no_emission(j: StepJoinPointView, msgs: Seq<ProcessMessageView>, k: u64, missing: int)
    requires
        j.wf(),
        j.mode == JoinMode::AND,
        j.expected.len() > 0,
        !has_pending(j, k),
        forall|t: int| 0 <= t < msgs.len() ==> (#[trigger] msgs[t]).key() == k,
        forall|t: int| 0 <= t < msgs.len() ==> j.expected.contains((#[trigger] msgs[t]).node_id),
        0 <= missing < j.expected.len(),
        forall|t: int| 0 <= t < msgs.len() ==> (#[trigger] msgs[t]).node_id != j.expected[missing],
    ensures
        run_join(j, msgs).1 == Seq::<ProcessMessageView>::empty(),
{
    let parts0 = pending_parts_for(j, k);
    assert(parts0 == empty_parts(j.expected.len()));
    assert forall|t: int| 0 <= t < msgs.len() implies !all_filled(
        parts_fold(parts0, j.expected, #[trigger] msgs.take(t)),
    ) by {
        lemma_parts_fold_slot(parts0, j.expected, msgs.take(t), missing);
        lemma_last_data_missing(j.expected[missing], msgs.take(t));
        assert(parts_fold(parts0, j.expected, msgs.take(t))[missing] is None);
    }
    lemma_join_and_run(j, msgs, k);
    if msgs.len() > 0 {
        lemma_parts_fold_slot(parts0, j.expected, msgs, missing);
        lemma_last_data_missing(j.expected[missing], msgs);
        assert(parts_fold(parts0, j.expected, msgs)[missing] is None);
        assert(!all_filled(parts_fold(parts0, j.expected, msgs)));
    }
}

proof fn lemma_last_data_missing(name: Seq<char>, msgs: Seq<ProcessMessageView>)
    requires
        forall|t: int| 0 <= t < msgs.len() ==> (#[trigger] msgs[t]).node_id != name,
    ensures
        last_data_for(name, msgs) is None,
    decreases msgs.len(),
{
    if msgs.len() > 0 {
        lemma_last_data_missing(name, msgs.drop_first());
    }
}

proof fn lemma_last_data_unique(name: Seq<char>, msgs: Seq<ProcessMessageView>, t: int)
    requires
        0 <= t < msgs.len(),
        msgs[t].node_id == name,
        forall|u: int| 0 <= u < msgs.len() && u != t ==> (#[trigger] msgs[u]).node_id != name,
    ensures
        last_data_for(name, msgs) == Some(msgs[t].data),
    decreases msgs.len(),
{
    if t == 0 {
        assert(forall|u: int|
            0 <= u < msgs.drop_first().len() ==> (#[trigger] msgs.drop_first()[u]).node_id != name);
        lemma_last_data_missing(name, msgs.drop_first());
    } else {
        assert forall|u: int| 0 <= u < msgs.drop_first().len() && u != t - 1 implies (#[trigger] msgs.drop_first()[u]).node_id
            != name by {
            assert(msgs.drop_first()[u] == msgs[u + 1]);
        }
        assert(msgs.drop_first()[t - 1] == msgs[t]);
        lemma_last_data_unique(name, msgs.drop_first(), t - 1);
    }
}

/// Join AND completeness, the other direction: if the messages deliver each
/// expected input exactly once for a fresh key `K` (in any order, described
/// by the position map `pos`: the message at `t` delivers expected input
/// `pos[t]`), the join emits exactly one message, whose id is `K` and whose
/// data is the concatenation of the delivered data in declared order.
///
/// Law: for any key, the AND join emits exactly once once every expected
/// input has been delivered, and the emitted data is the ordered
/// concatenation of the parts.
pub proof fn lemma_join_and_completeness(
    j: StepJoinPointView,
    msgs: Seq<ProcessMessageView>,
    k: u64,
    pos: Seq<int>,
)
    requires
        j.wf(),
        j.mode == JoinMode::AND,
        j.expected.len() > 0,
        !has_pending(j, k),
        forall|i: int, i2: int|
            0 <= i < i2 < j.expected.len() ==> j.expected[i] != j.expected[i2],
        msgs.len() == j.expected.len(),
        pos.len() == msgs.len(),
        forall|t: int| 0 <= t < pos.len() ==> 0 <= #[trigger] pos[t] < j.expected.len(),
        forall|t: int, u: int| 0 <= t < u < pos.len() ==> pos[t] != pos[u],
        forall|t: int| 0 <= t < msgs.len() ==> (#[trigger] msgs[t]).key() == k,
        forall|t: int| 0 <= t < msgs.len() ==> (#[trigger] msgs[t]).node_id == j.expected[pos[t]],
    ensures
        ({
            run_join(j, msgs).1 == seq![
                j.emission(
                    k,
                    concat_parts(
                        Seq::new(j.expected.len(), |i: int|
                            match last_data_for(j.expected[i], msgs) {
                                Some(d) => Some(d),
                                None => None,
                            }),
                    ),
                    msgs.last(),
                ),
            ]
        }),
        !has_pending(run_join(j, msgs).0, k),
{
    let n = j.expected.len() as int;
    let parts0 = pending_parts_for(j, k);
    assert(parts0 == empty_parts(j.expected.len()));
    // Each message names an expected input, trivially.
    assert forall|t: int| 0 <= t < msgs.len() implies j.expected.contains(
        (#[trigger] msgs[t]).node_id,
    ) by {
        assert(j.expected[pos[t]] == msgs[t].node_id);
    }
    // No strict prefix fills the table: the slot of a later message is empty.
    assert forall|t: int| 0 <= t < msgs.len() implies !all_filled(
        parts_fold(parts0, j.expected, #[trigger] msgs.take(t)),
    ) by {
        let slot = pos[t];
        lemma_parts_fold_slot(parts0, j.expected, msgs.take(t), slot);
        assert forall|u: int| 0 <= u < msgs.take(t).len() implies (#[trigger] msgs.take(t)[u]).node_id
            != j.expected[slot] by {
            assert(msgs.take(t)[u] == msgs[u]);
            assert(msgs[u].node_id == j.expected[pos[u]]);
            if pos[u] == slot {
                assert(u != t);
                assert(false);
            } else {
                assert(j.expected[pos[u]] != j.expected[slot]) by {
                    if pos[u] < slot {
                    } else {
                    }
                }
            }
        }
        lemma_last_data_missing(j.expected[slot], msgs.take(t));
        assert(parts_fold(parts0, j.expected, msgs.take(t))[slot] is None);
    }
    // The full run fills every slot.
    let parts_n = parts_fold(parts0, j.expected, msgs);
    assert forall|i: int| 0 <= i < n implies parts_n[i] is Some by {
        lemma_parts_fold_slot(parts0, j.expected, msgs, i);
        // Some position delivers slot i: pos is a permutation of 0..n.
        let t = lemma_perm_onto(pos, n, i);
        lemma_last_data_unique_for_slot(j.expected, msgs, pos, i, t);
    }
    lemma_parts_fold_len(parts0, j.expected, msgs);
    assert(all_filled(parts_n));
    lemma_join_and_run(j, msgs, k);
    // Identify the emitted data with the per-slot last deliveries.
    assert(parts_n =~= Seq::new(
        j.expected.len(),
        |i: int|
            match last_data_for(j.expected[i], msgs) {
                Some(d) => Some(d),
                None => None,
            },
    )) by {
        assert forall|i: int| 0 <= i < n implies parts_n[i] == (match last_data_for(
            j.expected[i],
            msgs,
        ) {
            Some(d) => Some(d),
            None => None,
        }) by {
            lemma_parts_fold_slot(parts0, j.expected, msgs, i);
            assert(parts_n[i] is Some);
        }
    }
}

/// An injective map from n positions into n slots hits every slot.
proof fn lemma_perm_onto(pos: Seq<int>, n: int, i: int) -> (t: int)
    requires
        pos.len() == n,
        0 <= i < n,
        forall|t: int| 0 <= t < pos.len() ==> 0 <= #[trigger] pos[t] < n,
        forall|t: int, u: int| 0 <= t < u < pos.len() ==> pos[t] != pos[u],
    ensures
        0 <= t < pos.len(),
        pos[t] == i,
{
    if exists|t: int| 0 <= t < pos.len() && pos[t] == i {
        choose|t: int| 0 <= t < pos.len() && pos[t] == i
    } else {
        // The n positions map injectively into the n - 1 other slots.
        let squeezed = pos.map_values(
            |v: int|
                if v < i {
                    v
                } else {
                    v - 1
                },
        );
        lemma_no_injection_into_smaller(squeezed, n - 1);
        let (t, u) = choose|t: int, u: int|
            0 <= t < u < squeezed.len() && squeezed[t] == squeezed[u];
        assert(pos[t] != pos[u]);
        assert(pos[t] != i && pos[u] != i);
        assert(false);
        0
    }
}

/// A sequence of more than `m` values drawn from `0..m` repeats one.
proof fn lemma_no_injection_into_smaller(s: Seq<int>, m: int)
    requires
        s.len() > m,
        m >= 0,
        forall|t: int| 0 <= t < s.len() ==> 0 <= #[trigger] s[t] < m,
    ensures
        exists|t: int, u: int| 0 <= t < u < s.len() && s[t] == s[u],
    decreases m,
{
    if m == 0 {
        assert(0 <= s[0] < m);
        assert(false);
    } else {
        if exists|t: int, u: int| 0 <= t < u < s.len() && s[t] == s[u] {
        } else {
            // At most one position carries the value m - 1; drop it and
            // recurse on the rest.
            if exists|t: int| 0 <= t < s.len() && s[t] == m - 1 {
                let t0 = choose|t: int| 0 <= t < s.len() && s[t] == m - 1;
                let s2 = s.remove(t0);
                s.remove_ensures(t0);
                assert forall|t: int| 0 <= t < s2.len() implies 0 <= #[trigger] s2[t] < m - 1 by {
                    if t < t0 {
                        assert(s2[t] == s[t]);
                        if s[t] == m - 1 {
                            assert(false);
                        }
                    } else {
                        assert(s2[t] == s[t + 1]);
                        if s[t + 1] == m - 1 {
                            assert(false);
                        }
                    }
                }
                lemma_no_injection_into_smaller(s2, m - 1);
                let (t, u) = choose|t: int, u: int|
                    0 <= t < u < s2.len() && s2[t] == s2[u];
                let ot = if t < t0 {
                    t
                } else {
                    t + 1
                };
                let ou = if u < t0 {
                    u
                } else {
                    u + 1
                };
                assert(s[ot] == s2[t]);
                assert(s[ou] == s2[u]);
                assert(ot != ou);
                if ot < ou {
                    assert(false);
                } else {
                    assert(false);
                }
            } else {
                assert(forall|t: int| 0 <= t < s.len() ==> 0 <= #[trigger] s[t] < m - 1);
                lemma_no_injection_into_smaller(s, m - 1);
            }
        }
    }
}

proof fn lemma_last_data_unique_for_slot(
    expected: Seq<Seq<char>>,
    msgs: Seq<ProcessMessageView>,
    pos: Seq<int>,
    i: int,
    t: int,
)
    requires
        0 <= i < expected.len(),
        forall|a: int, b: int| 0 <= a < b < expected.len() ==> expected[a] != expected[b],
        pos.len() == msgs.len(),
        forall|u: int| 0 <= u < pos.len() ==> 0 <= #[trigger] pos[u] < expected.len(),
        forall|a: int, b: int| 0 <= a < b < pos.len() ==> pos[a] != pos[b],
        forall|u: int| 0 <= u < msgs.len() ==> (#[trigger] msgs[u]).node_id == expected[pos[u]],
        0 <= t < msgs.len(),
        pos[t] == i,
    ensures
        last_data_for(expected[i], msgs) == Some(msgs[t].data),
{
    assert forall|u: int| 0 <= u < msgs.len() && u != t implies (#[trigger] msgs[u]).node_id
        != expected[i] by {
        assert(msgs[u].node_id == expected[pos[u]]);
        if pos[u] != i {
            if pos[u] < i {
            } else {
            }
        } else {
            if u < t {
                assert(pos[u] != pos[t]);
            } else {
                assert(pos[t] != pos[u]);
            }
            assert(false);
        }
    }
    lemma_last_data_unique(expected[i], msgs, t);
}

/// Whether the OR join holds a countdown entry for `key`.
pub open spec fn has_completed(j: StepJoinPointView, key: u64) -> bool {
    cseq_has_key(j.completed, key)
}

pub open spec fn completed_count_for(j: StepJoinPointView, key: u64) -> usize {
    j.completed[cseq_key_index(j.completed, key)].1
}

/// While a countdown entry for `k` survives, further arrivals for `k` are
/// dropped without emission.
proof fn lemma_join_or_drain(j: StepJoinPointView, msgs: Seq<ProcessMessageView>, k: u64)
    requires
        j.wf(),
        j.mode == JoinMode::OR,
        j.expected.len() <= usize::MAX,
        forall|t: int| 0 <= t < msgs.len() ==> (#[trigger] msgs[t]).key() == k,
        has_completed(j, k),
        msgs.len() <= completed_count_for(j, k),
    ensures
        run_join(j, msgs).1 == Seq::<ProcessMessageView>::empty(),
        run_join(j, msgs).0.wf(),
    decreases msgs.len(),
{
    if msgs.len() > 0 {
        let m0 = msgs[0];
        let (j1, out1) = j.transition(m0);
        let q = cseq_key_index(j.completed, k);
        let cnt = j.completed[q].1;
        assert(0 <= q < j.completed.len() && j.completed[q].0 == k);
        assert(cnt >= 1);
        assert(out1 is None);
        assert(j1.wf()) by {
            lemma_transition_or_wf(j, m0);
        }
        if cnt > 1 {
            assert(j1.completed == j.completed.update(q, (k, (cnt - 1) as usize)));
            assert(has_completed(j1, k)) by {
                assert(j1.completed[q].0 == k);
            }
            assert(completed_count_for(j1, k) == cnt - 1) by {
                let q2 = cseq_key_index(j1.completed, k);
                assert(0 <= q2 < j1.completed.len() && j1.completed[q2].0 == k);
                if q2 != q {
                    assert(j1.completed[q2].0 == j.completed[q2].0);
                    assert(false);
                }
            }
            lemma_join_or_drain(j1, msgs.drop_first(), k);
        } else {
            // The entry is removed exactly at the last allowed arrival.
            assert(msgs.len() <= 1);
            assert(msgs.drop_first().len() == 0);
            assert(run_join(j1, msgs.drop_first()).0 == j1);
            assert(run_join(j1, msgs.drop_first()).1 == Seq::<ProcessMessageView>::empty());
        }
        assert(run_join(j, msgs).1 =~= Seq::<ProcessMessageView>::empty());
    }
}

/// The OR transition preserves well-formedness.
proof fn lemma_transition_or_wf(j: StepJoinPointView, m: ProcessMessageView)
    requires
        j.wf(),
        j.mode == JoinMode::OR,
        j.expected.len() <= usize::MAX,
    ensures
        j.transition(m).0.wf(),
{
    let key = m.key();
    let had = cseq_has_key(j.completed, key);
    let q = cseq_key_index(j.completed, key);
    let (j1, out) = j.transition(m);
    if had {
        let cnt = j.completed[q].1;
        if cnt > 1 {
            assert(j1.completed == j.completed.update(q, (key, (cnt - 1) as usize)));
            assert forall|a: int, b: int| 0 <= a < b < j1.completed.len() implies j1.completed[a].0
                != j1.completed[b].0 by {}
        } else {
            assert(j1.completed == j.completed.remove(q));
            j.completed.remove_ensures(q);
            assert forall|a: int, b: int| 0 <= a < b < j1.completed.len() implies j1.completed[a].0
                != j1.completed[b].0 by {}
        }
    } else {
        if j.expected.len() > 1 {
            assert(j1.completed == j.completed.push((key, (j.expected.len() - 1) as usize)));
            assert forall|a: int, b: int| 0 <= a < b < j1.completed.len() implies j1.completed[a].0
                != j1.completed[b].0 by {
                if b == j1.completed.len() - 1 {
                    assert(j1.completed[a] == j.completed[a]);
                }
            }
        }
    }
}

/// Join OR at-most-once.
///
/// Law: for any key `K` without history at the join, a run of arrivals for
/// `K` (at most one per expected branch) emits exactly once: the first
/// arrival passes through verbatim (same data and batch fields, re-tagged
/// with the join's output name), and every later arrival is dropped.
pub proof fn lemma_join_or_at_most_once(j: StepJoinPointView, msgs: Seq<ProcessMessageView>, k: u64)
    requires
        j.wf(),
        j.mode == JoinMode::OR,
        j.expected.len() <= usize::MAX,
        1 <= msgs.len() <= j.expected.len(),
        forall|t: int| 0 <= t < msgs.len() ==> (#[trigger] msgs[t]).key() == k,
        !has_completed(j, k),
    ensures
        run_join(j, msgs).1 == seq![j.emission(k, msgs[0].data, msgs[0])],
        run_join(j, msgs).0.wf(),
{
    let m0 = msgs[0];
    let (j1, out1) = j.transition(m0);
    assert(out1 == Some(j.emission(k, m0.data, m0)));
    assert(j1.wf()) by {
        lemma_transition_or_wf(j, m0);
    }
    if j.expected.len() > 1 {
        assert(j1.completed == j.completed.push((k, (j.expected.len() - 1) as usize)));
        assert(has_completed(j1, k)) by {
            assert(j1.completed[j1.completed.len() - 1].0 == k);
        }
        assert(completed_count_for(j1, k) == j.expected.len() - 1) by {
            let q = cseq_key_index(j1.completed, k);
            assert(0 <= q < j1.completed.len() && j1.completed[q].0 == k);
            if q != j1.completed.len() - 1 {
                assert(j1.completed[q].0 == j.completed[q].0);
                assert(cseq_has_key(j.completed, k));
                assert(false);
            }
        }
        lemma_join_or_drain(j1, msgs.drop_first(), k);
    } else {
        assert(msgs.len() == 1);
    }
    assert(run_join(j, msgs).1 =~= seq![j.emission(k, msgs[0].data, msgs[0])]);
}


/// Routing fan-out preserves data through the join.
///
/// Law: when one source emission fans out into two branches that meet again
/// at an AND join (declared first branch then second), delivering the two
/// branch results for the emission's key — in either arrival order — yields
/// exactly one join emission: its id is the key, and its data is the first
/// branch's data followed by the second branch's, so nothing is lost or
/// reordered by the fan-out.
pub proof fn lemma_join_and_pair(
    j: StepJoinPointView,
    ma: ProcessMessageView,
    mb: ProcessMessageView,
    k: u64,
)
    requires
        j.wf(),
        j.mode == JoinMode::AND,
        j.expected.len() == 2,
        j.expected[0] != j.expected[1],
        !has_pending(j, k),
        ma.key() == k,
        mb.key() == k,
        ma.node_id == j.expected[0],
        mb.node_id == j.expected[1],
    ensures
        run_join(j, seq![ma, mb]).1 == seq![j.emission(k, ma.data + mb.data, mb)],
        run_join(j, seq![mb, ma]).1 == seq![j.emission(k, ma.data + mb.data, ma)],
{
    lemma_join_and_pair_one(j, ma, mb, k);
    lemma_join_and_pair_one_rev(j, ma, mb, k);
}

proof fn lemma_join_and_pair_parts(
    j: StepJoinPointView,
    msgs: Seq<ProcessMessageView>,
    ma: ProcessMessageView,
    mb: ProcessMessageView,
)
    requires
        j.expected.len() == 2,
        j.expected[0] != j.expected[1],
        ma.node_id == j.expected[0],
        mb.node_id == j.expected[1],
        msgs == seq![ma, mb] || msgs == seq![mb, ma],
    ensures
        concat_parts(
            Seq::new(
                j.expected.len(),
                |i: int|
                    match last_data_for(j.expected[i], msgs) {
                        Some(d) => Some(d),
                        None => None,
                    },
            ),
        ) == ma.data + mb.data,
{
    let rest = msgs.drop_first();
    let nm0 = j.expected[0];
    let nm1 = j.expected[1];
    assert(rest.len() == 1);
    assert(rest.drop_first() =~= Seq::<ProcessMessageView>::empty());
    assert(last_data_for(nm0, rest.drop_first()) is None);
    assert(last_data_for(nm1, rest.drop_first()) is None);
    assert(last_data_for(nm0, rest) == (if rest[0].node_id == nm0 {
        Some(rest[0].data)
    } else {
        None
    }));
    assert(last_data_for(nm1, rest) == (if rest[0].node_id == nm1 {
        Some(rest[0].data)
    } else {
        None
    }));
    assert(last_data_for(j.expected[0], msgs) == Some(ma.data));
    assert(last_data_for(j.expected[1], msgs) == Some(mb.data));
    let parts = Seq::new(
        j.expected.len(),
        |i: int|
            match last_data_for(j.expected[i], msgs) {
                Some(d) => Some(d),
                None => None,
            },
    );
    assert(parts[0] == Some(ma.data));
    assert(parts[1] == Some(mb.data));
    assert(concat_parts_upto(parts, 0) == Seq::<u64>::empty());
    assert(concat_parts_upto(parts, 1) == Seq::<u64>::empty() + ma.data);
    assert(concat_parts_upto(parts, 2) == (Seq::<u64>::empty() + ma.data) + mb.data);
    assert(concat_parts(parts) =~= ma.data + mb.data);
}

proof fn lemma_join_and_pair_one(
    j: StepJoinPointView,
    ma: ProcessMessageView,
    mb: ProcessMessageView,
    k: u64,
)
    requires
        j.wf(),
        j.mode == JoinMode::AND,
        j.expected.len() == 2,
        j.expected[0] != j.expected[1],
        !has_pending(j, k),
        ma.key() == k,
        mb.key() == k,
        ma.node_id == j.expected[0],
        mb.node_id == j.expected[1],
    ensures
        run_join(j, seq![ma, mb]).1 == seq![j.emission(k, ma.data + mb.data, mb)],
{
    let msgs = seq![ma, mb];
    let pos = seq![0int, 1int];
    assert(msgs[0] == ma && msgs[1] == mb);
    assert(forall|t: int| 0 <= t < msgs.len() ==> (#[trigger] msgs[t]).key() == k);
    assert(forall|t: int|
        0 <= t < msgs.len() ==> (#[trigger] msgs[t]).node_id == j.expected[pos[t]]);
    lemma_join_and_completeness(j, msgs, k, pos);
    assert(msgs.last() == mb);
    lemma_join_and_pair_parts(j, msgs, ma, mb);
}

proof fn lemma_join_and_pair_one_rev(
    j: StepJoinPointView,
    ma: ProcessMessageView,
    mb: ProcessMessageView,
    k: u64,
)
    requires
        j.wf(),
        j.mode == JoinMode::AND,
        j.expected.len() == 2,
        j.expected[0] != j.expected[1],
        !has_pending(j, k),
        ma.key() == k,
        mb.key() == k,
        ma.node_id == j.expected[0],
        mb.node_id == j.expected[1],
    ensures
        run_join(j, seq![mb, ma]).1 == seq![j.emission(k, ma.data + mb.data, ma)],
{
    let msgs = seq![mb, ma];
    let pos = seq![1int, 0int];
    assert(msgs[0] == mb && msgs[1] == ma);
    assert(forall|t: int| 0 <= t < msgs.len() ==> (#[trigger] msgs[t]).key() == k);
    assert(forall|t: int|
        0 <= t < msgs.len() ==> (#[trigger] msgs[t]).node_id == j.expected[pos[t]]);
    lemma_join_and_completeness(j, msgs, k, pos);
    assert(msgs.last() == ma);
    lemma_join_and_pair_parts(j, msgs, ma, mb);
}

/// The view of an executable part table.
pub open spec fn view_of_parts(parts: Seq<Option<Vec<u64>>>) -> Seq<Option<Seq<u64>>> {
    Seq::new(
        parts.len(),
        |i: int|
            match parts[i] {
                Some(v) => Some(v@),
                None => None,
            },
    )
}


impl crate::step::Step for StepJoinPoint {
    fn name(&self) -> &str {
        self.name.as_str()
    }

    fn output_name(&self) -> &str {
        self.output_name.as_str()
    }

    fn params(&self) -> &Params {
        &self.params
    }
}

} // verus!
