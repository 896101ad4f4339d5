use vstd::prelude::*;

use crate::messages::{ProcessMessage, ProcessMessageView};
use crate::step::{Params, ParamsView, TraceStep, TraceStepView};
use crate::steps::step_join_point::view_of_opt_msg;

verus! {

/// Pooling modes for the batch pooler.
/// - `Window`: flush after a fixed number of messages.
/// - `BatchId`: flush when a batch announced by the messages is complete.
#[derive(Clone, Copy, PartialEq, Eq, Structural)]
pub enum PoolingMode {
    Window { size: usize },
    BatchId,
}

impl Default for PoolingMode {
    fn default() -> (r: Self)
        ensures
            r == (PoolingMode::Window { size: 10 }),
    {
        PoolingMode::Window { size: 10 }
    }
}

/// Pools incoming messages into batches based on the configured mode.
pub struct BatchPooler {
    pub name: String,
    pub output_name: String,
    pub mode: PoolingMode,
    pub window_buffer: Vec<ProcessMessage>,
    pub batch_buffers: Vec<(u64, Vec<ProcessMessage>)>,
    pub params: Params,
}

pub ghost struct BatchPoolerView {
    pub name: Seq<char>,
    pub output_name: Seq<char>,
    pub mode: PoolingMode,
    pub window: Seq<ProcessMessageView>,
    pub batches: Seq<(u64, Seq<ProcessMessageView>)>,
    pub params: ParamsView,
}

impl View for BatchPooler {
    type V = BatchPoolerView;

    open spec fn view(&self) -> BatchPoolerView {
        BatchPoolerView {
            name: self.name@,
            output_name: self.output_name@,
            mode: self.mode,
            window: Seq::new(self.window_buffer@.len(), |i: int| self.window_buffer@[i]@),
            batches: Seq::new(
                self.batch_buffers@.len(),
                |i: int|
                    (
                        self.batch_buffers@[i].0,
                        Seq::new(
                            self.batch_buffers@[i].1@.len(),
                            |k: int| self.batch_buffers@[i].1@[k]@,
                        ),
                    ),
            ),
            params: self.params@,
        }
    }
}

/// Concatenation of the data of the first `k` pooled messages, in order.
pub open spec fn concat_data_upto(msgs: Seq<ProcessMessageView>, k: int) -> Seq<u64>
    decreases k,
{
    if k <= 0 {
        Seq::empty()
    } else {
        concat_data_upto(msgs, k - 1) + msgs[k - 1].data
    }
}

/// Concatenation of the data of the pooled messages, in order.
pub open spec fn concat_data(msgs: Seq<ProcessMessageView>) -> Seq<u64> {
    concat_data_upto(msgs, msgs.len() as int)
}

/// Some batch buffer carries `key`.
pub open spec fn bseq_has_key(batches: Seq<(u64, Seq<ProcessMessageView>)>, key: u64) -> bool {
    exists|q: int| 0 <= q < batches.len() && batches[q].0 == key
}

/// The index of the batch buffer carrying `key` (meaningful when present).
pub open spec fn bseq_key_index(batches: Seq<(u64, Seq<ProcessMessageView>)>, key: u64) -> int {
    choose|q: int| 0 <= q < batches.len() && batches[q].0 == key
}

impl BatchPoolerView {
    /// Batch keys are unique and no buffer has grown past what a batch
    /// total could ask for.
    pub open spec fn wf(self) -> bool {
        &&& forall|p: int, q: int|
            0 <= p < q < self.batches.len() ==> self.batches[p].0 != self.batches[q].0
        &&& forall|q: int|
            0 <= q < self.batches.len() ==> (#[trigger] self.batches[q]).1.len() < u32::MAX
    }

    /// The trace record this pooler appends; durations are the embedder's
    /// concern, so zero is recorded.
    pub open spec fn trace_rec(self) -> TraceStepView {
        TraceStepView { node_id: self.name, duration_micros: 0, params: self.params }
    }

    /// One handling step of the pooler.
    pub open spec fn transition(self, m: ProcessMessageView) -> (BatchPoolerView, Option<
        ProcessMessageView,
    >) {
        match self.mode {
            PoolingMode::Window { size } => {
                let buf1 = self.window.push(m);
                if buf1.len() >= size {
                    (
                        BatchPoolerView { window: Seq::empty(), ..self },
                        Some(
                            ProcessMessageView {
                                id: m.id,
                                node_id: self.output_name,
                                data: concat_data(buf1),
                                batch_id: m.batch_id,
                                batch_total: m.batch_total,
                                trace: m.trace.push(self.trace_rec()),
                            },
                        ),
                    )
                } else {
                    (BatchPoolerView { window: buf1, ..self }, None)
                }
            },
            PoolingMode::BatchId => {
                match (m.batch_id, m.batch_total) {
                    (Some(b), Some(tot)) => {
                        let had = bseq_has_key(self.batches, b);
                        let q = bseq_key_index(self.batches, b);
                        let buf1 = (if had {
                            self.batches[q].1
                        } else {
                            Seq::empty()
                        }).push(m);
                        let rest = if had {
                            self.batches.remove(q)
                        } else {
                            self.batches
                        };
                        if buf1.len() >= tot {
                            (
                                BatchPoolerView { batches: rest, ..self },
                                Some(
                                    ProcessMessageView {
                                        id: b,
                                        node_id: self.output_name,
                                        data: concat_data(buf1),
                                        batch_id: Some(b),
                                        batch_total: Some(buf1.len() as u32),
                                        trace: m.trace.push(self.trace_rec()),
                                    },
                                ),
                            )
                        } else {
                            (BatchPoolerView { batches: rest.push((b, buf1)), ..self }, None)
                        }
                    },
                    _ => (self, None),
                }
            },
        }
    }
}

/// Finds the batch buffer for `key`, if any.
fn find_batch_index(batches: &Vec<(u64, Vec<ProcessMessage>)>, key: u64) -> (r: Option<usize>)
    ensures
        match r {
            Some(i) => i < batches@.len() && batches@[i as int].0 == key,
            None => forall|q: int| 0 <= q < batches@.len() ==> batches@[q].0 != key,
        },
{
    let mut q: usize = 0;
    while q < batches.len()
        invariant
            q <= batches.len(),
            forall|qq: int| 0 <= qq < q ==> batches@[qq].0 != key,
        decreases batches.len() - q,
    {
        if batches[q].0 == key {
            return Some(q);
        }
        q = q + 1;
    }
    None
}

/// Appends the data of each message of `buf` to `data`, in order.
fn append_all_data(data: &mut Vec<u64>, buf: &Vec<ProcessMessage>)
    ensures
        final(data)@ == old(data)@ + concat_data(
            Seq::new(buf@.len(), |i: int| buf@[i]@),
        ),
{
    let ghost msgs = Seq::new(buf@.len(), |i: int| buf@[i]@);
    let ghost base = data@;
    let mut k: usize = 0;
    while k < buf.len()
        invariant
            k <= buf.len(),
            msgs == Seq::new(buf@.len(), |i: int| buf@[i]@),
            data@ == base + concat_data_upto(msgs, k as int),
        decreases buf.len() - k,
    {
        let v = &buf[k].data;
        let mut w: usize = 0;
        let ghost before = data@;
        while w < v.len()
            invariant
                w <= v.len(),
                data@ =~= before + v@.subrange(0, w as int),
            decreases v.len() - w,
        {
            data.push(v[w]);
            w = w + 1;
        }
        assert(v@.subrange(0, v@.len() as int) =~= v@);
        assert(msgs[k as int].data == v@);
        assert(data@ =~= base + concat_data_upto(msgs, k as int + 1));
        k = k + 1;
    }
    assert(data@ =~= base + concat_data(msgs));
}

impl BatchPooler {
    /// Builds a pooler: a present `window_size` parameter selects Window
    /// mode with that size, absence selects BatchId mode.
    pub fn new_from_params(name: String, output_name: String, params: Params) -> (r: BatchPooler)
        ensures
            r@.name == name@,
            r@.output_name == output_name@,
            r@.mode == (match params@.window_size {
                Some(size) => PoolingMode::Window { size: size as usize },
                None => PoolingMode::BatchId,
            }),
            r@.window == Seq::<ProcessMessageView>::empty(),
            r@.batches == Seq::<(u64, Seq<ProcessMessageView>)>::empty(),
            r@.params == params@,
            r@.wf(),
    {
        let mode = match params.window_size {
            Some(size) => PoolingMode::Window { size: size as usize },
            None => PoolingMode::BatchId,
        };
        let r = BatchPooler {
            name,
            output_name,
            mode,
            window_buffer: Vec::new(),
            batch_buffers: Vec::new(),
            params,
        };
        assert(r@.window =~= Seq::<ProcessMessageView>::empty());
        assert(r@.batches =~= Seq::<(u64, Seq<ProcessMessageView>)>::empty());
        r
    }

    /// Handles one message: the state and emission follow `transition`.
    pub fn handle(&mut self, msg: ProcessMessage) -> (r: Option<ProcessMessage>)
        requires
            old(self)@.wf(),
        ensures
            final(self)@.wf(),
            (final(self)@, view_of_opt_msg(r)) == old(self)@.transition(msg@),
    {
        let mode = self.mode;
        match mode {
            PoolingMode::Window { size } => self.handle_window(msg, size),
            PoolingMode::BatchId => self.handle_batch(msg),
        }
    }

    fn handle_window(&mut self, msg: ProcessMessage, size: usize) -> (r: Option<ProcessMessage>)
        requires
            old(self)@.wf(),
            old(self).mode == (PoolingMode::Window { size }),
        ensures
            final(self)@.wf(),
            (final(self)@, view_of_opt_msg(r)) == old(self)@.transition(msg@),
    {
        let ghost pre = self@;
        let ghost m = msg@;
        let dup = msg.duplicate();
        self.window_buffer.push(dup);
        assert(self@.window =~= pre.window.push(m));
        let ghost buf1 = pre.window.push(m);
        if self.window_buffer.len() >= size {
            let mut data: Vec<u64> = Vec::new();
            append_all_data(&mut data, &self.window_buffer);
            assert(data@ == concat_data(buf1));
            self.window_buffer.clear();
            assert(self@.window =~= Seq::<ProcessMessageView>::empty());
            let rec = TraceStep::new(self.name.as_str(), 0, self.params.duplicate());
            assert(rec@ == pre.trace_rec());
            let mut trace = msg.trace;
            trace.add_step(rec);
            let out = ProcessMessage {
                id: msg.id,
                node_id: self.output_name.clone(),
                data,
                batch_id: msg.batch_id,
                batch_total: msg.batch_total,
                trace,
            };
            assert(self@.batches =~= pre.batches);
            Some(out)
        } else {
            assert(self@.batches =~= pre.batches);
            None
        }
    }

    fn handle_batch(&mut self, msg: ProcessMessage) -> (r: Option<ProcessMessage>)
        requires
            old(self)@.wf(),
            old(self).mode == PoolingMode::BatchId,
        ensures
            final(self)@.wf(),
            (final(self)@, view_of_opt_msg(r)) == old(self)@.transition(msg@),
    {
        let ghost pre = self@;
        let ghost m = msg@;
        let (b, tot): (u64, u32) = match (msg.batch_id, msg.batch_total) {
            (Some(b), Some(tot)) => (b, tot),
            _ => {
                // Messages lacking batch fields are dropped in this mode.
                assert(self@.window =~= pre.window);
                assert(self@.batches =~= pre.batches);
                return None;
            },
        };
        let found = find_batch_index(&self.batch_buffers, b);
        proof {
            if found is None {
                assert(forall|q: int| 0 <= q < pre.batches.len() ==> pre.batches[q].0 != b);
            }
        }
        let ghost had = bseq_has_key(pre.batches, b);
        let ghost qidx = bseq_key_index(pre.batches, b);
        let mut buf: Vec<ProcessMessage>;
        match found {
            Some(i) => {
                proof {
                    assert(pre.batches[i as int].0 == b);
                    assert(had);
                    assert(qidx == i as int);
                }
                let entry = self.batch_buffers.remove(i);
                buf = entry.1;
                assert(self@.batches =~= pre.batches.remove(qidx));
            },
            None => {
                proof {
                    assert(!had);
                }
                buf = Vec::new();
                assert(self@.batches =~= pre.batches);
            },
        }
        let ghost rest = if had {
            pre.batches.remove(qidx)
        } else {
            pre.batches
        };
        let ghost buf0 = if had {
            pre.batches[qidx].1
        } else {
            Seq::<ProcessMessageView>::empty()
        };
        proof {
            assert(Seq::new(buf@.len(), |i: int| buf@[i]@) =~= buf0);
            assert(self@.batches == rest);
            assert(self@ == (BatchPoolerView { batches: rest, ..pre }));
            if had {
                assert(buf0.len() < u32::MAX);
            }
        }
        let dup = msg.duplicate();
        buf.push(dup);
        let ghost buf1 = buf0.push(m);
        assert(Seq::new(buf@.len(), |i: int| buf@[i]@) =~= buf1);
        if buf.len() >= tot as usize {
            let mut data: Vec<u64> = Vec::new();
            append_all_data(&mut data, &buf);
            assert(data@ == concat_data(buf1));
            let total_out = buf.len() as u32;
            assert(total_out as nat == buf1.len());
            let rec = TraceStep::new(self.name.as_str(), 0, self.params.duplicate());
            assert(rec@ == pre.trace_rec());
            let mut trace = msg.trace;
            trace.add_step(rec);
            let out = ProcessMessage {
                id: b,
                node_id: self.output_name.clone(),
                data,
                batch_id: Some(b),
                batch_total: Some(total_out),
                trace,
            };
            assert(self@.window =~= pre.window);
            Some(out)
        } else {
            self.batch_buffers.push((b, buf));
            assert(self@.batches =~= rest.push((b, buf1)));
            assert(self@.window =~= pre.window);
            proof {
                let post = self@.batches;
                assert forall|pp: int, qq: int| 0 <= pp < qq < post.len() implies post[pp].0
                    != post[qq].0 by {
                    if qq == post.len() - 1 {
                        assert(post[qq].0 == b);
                        if had {
                            pre.batches.remove_ensures(qidx);
                            if pp < qidx {
                                assert(rest[pp] == pre.batches[pp]);
                            } else {
                                assert(rest[pp] == pre.batches[pp + 1]);
                            }
                        }
                    } else {
                        if had {
                            pre.batches.remove_ensures(qidx);
                        }
                    }
                }
            }
            None
        }
    }
}

// ---------------------------------------------------------------------------
// Laws of the pooler, stated over runs of its transition.
// ---------------------------------------------------------------------------

/// Folding a sequence of messages through the pooler, collecting emissions.
pub open spec fn run_pool(p: BatchPoolerView, msgs: Seq<ProcessMessageView>) -> (
    BatchPoolerView,
    Seq<ProcessMessageView>,
)
    decreases msgs.len(),
{
    if msgs.len() == 0 {
        (p, Seq::empty())
    } else {
        let (p1, out1) = p.transition(msgs[0]);
        let (p2, rest) = run_pool(p1, msgs.drop_first());
        (
            p2,
            match out1 {
                Some(o) => seq![o] + rest,
                None => rest,
            },
        )
    }
}

/// How many full windows of `size` fit in `len` messages.
pub open spec fn windows_count(len: int, size: int) -> int
    decreases len,
{
    if size <= 0 || len < size {
        0
    } else {
        1 + windows_count(len - size, size)
    }
}

/// The message a window pooler emits for the `t`-th full window of the
/// stream `s` (initial residue followed by the arrivals).
pub open spec fn window_emission(
    p: BatchPoolerView,
    s: Seq<ProcessMessageView>,
    t: int,
    size: int,
) -> ProcessMessageView {
    let m = s[(t + 1) * size - 1];
    ProcessMessageView {
        id: m.id,
        node_id: p.output_name,
        data: concat_data(s.subrange(t * size, (t + 1) * size)),
        batch_id: m.batch_id,
        batch_total: m.batch_total,
        trace: m.trace.push(p.trace_rec()),
    }
}

/// Window pooler law: running any arrivals through a window pooler emits
/// one message per full window, in order; each emission's data is the
/// concatenation of its window's data in insertion order, tagged with the
/// id and batch fields of the window's last (triggering) message; the
/// leftover messages stay buffered.
///
/// In particular, feeding `n * size` messages of equal length yields
/// exactly `n` emissions whose concatenated data equals the concatenation
/// of the inputs.
pub proof fn lemma_pooler_window_run(p: BatchPoolerView, msgs: Seq<ProcessMessageView>, size: usize)
    requires
        p.wf(),
        p.mode == (PoolingMode::Window { size }),
        size >= 1,
        p.window.len() < size,
    ensures
        ({
            let (p2, outs) = run_pool(p, msgs);
            let s = p.window + msgs;
            let nout = windows_count(s.len() as int, size as int);
            &&& p2.wf()
            &&& p2.mode == p.mode
            &&& p2.name == p.name
            &&& p2.output_name == p.output_name
            &&& p2.params == p.params
            &&& p2.batches == p.batches
            &&& outs.len() == nout
            &&& forall|t: int|
                0 <= t < nout ==> outs[t] == window_emission(p, s, t, size as int)
            &&& p2.window =~= s.skip(nout * (size as int))
        }),
    decreases msgs.len(),
{
    let s = p.window + msgs;
    let size_i = size as int;
    if msgs.len() == 0 {
        assert(s =~= p.window);
        assert(windows_count(s.len() as int, size_i) == 0);
        assert(s.skip(0) =~= s);
    } else {
        let m0 = msgs[0];
        let rest = msgs.drop_first();
        let buf1 = p.window.push(m0);
        let (p1, out1) = p.transition(m0);
        assert(s =~= buf1 + rest);
        if buf1.len() >= size {
            // The window flushes: exactly one window completes here.
            assert(buf1.len() == size_i);
            assert(out1 == Some(
                ProcessMessageView {
                    id: m0.id,
                    node_id: p.output_name,
                    data: concat_data(buf1),
                    batch_id: m0.batch_id,
                    batch_total: m0.batch_total,
                    trace: m0.trace.push(p.trace_rec()),
                },
            ));
            assert(p1.window =~= Seq::<ProcessMessageView>::empty());
            lemma_pooler_window_run(p1, rest, size);
            let (p2, outs2) = run_pool(p1, rest);
            let s2 = p1.window + rest;
            assert(s2 =~= rest);
            assert(s2 =~= s.skip(size_i));
            let nout2 = windows_count(s2.len() as int, size_i);
            assert(s.len() == size_i + s2.len());
            assert(windows_count(s.len() as int, size_i) == 1 + nout2);
            let nout = 1 + nout2;
            let outs = run_pool(p, msgs).1;
            assert(outs =~= seq![out1->0] + outs2);
            assert(buf1 =~= s.subrange(0, size_i));
            assert(m0 == s[size_i - 1]);
            assert(outs[0] == window_emission(p, s, 0, size_i));
            assert forall|t: int| 1 <= t < nout implies outs[t] == window_emission(
                p,
                s,
                t,
                size_i,
            ) by {
                assert(outs[t] == outs2[t - 1]);
                assert(outs2[t - 1] == window_emission(p1, s2, t - 1, size_i));
                assert(s2.subrange((t - 1) * size_i, t * size_i) =~= s.subrange(
                    t * size_i,
                    (t + 1) * size_i,
                )) by {
                    assert((t - 1) * size_i + size_i == t * size_i) by (nonlinear_arith);
                    assert(t * size_i + size_i == (t + 1) * size_i) by (nonlinear_arith);
                    assert((t - 1) * size_i >= 0) by (nonlinear_arith)
                        requires t >= 1 && size_i >= 1;
                    assert(t * size_i <= s2.len()) by {
                        lemma_windows_count_bound(s2.len() as int, size_i);
                        assert(t <= nout2);
                        assert(t * size_i <= nout2 * size_i) by (nonlinear_arith)
                            requires t <= nout2 && size_i >= 1;
                    }
                }
                assert(s2[t * size_i - 1] == s[(t + 1) * size_i - 1]) by {
                    assert(t * size_i - 1 >= 0) by (nonlinear_arith)
                        requires t >= 1 && size_i >= 1;
                    assert(t * size_i + size_i == (t + 1) * size_i) by (nonlinear_arith);
                    assert(t * size_i <= s2.len()) by {
                        lemma_windows_count_bound(s2.len() as int, size_i);
                        assert(t * size_i <= nout2 * size_i) by (nonlinear_arith)
                            requires t <= nout2 && size_i >= 1;
                    }
                }
                assert(window_emission(p1, s2, t - 1, size_i) == window_emission(
                    p,
                    s,
                    t,
                    size_i,
                ));
            }
            assert(p2.window =~= s2.skip(nout2 * size_i));
            assert(s2.skip(nout2 * size_i) =~= s.skip(nout * size_i)) by {
                let a = nout2 * size_i;
                lemma_windows_count_bound(s2.len() as int, size_i);
                assert(a >= 0) by (nonlinear_arith)
                    requires a == nout2 * size_i && nout2 >= 0 && size_i >= 1;
                assert(nout * size_i == size_i + a) by (nonlinear_arith)
                    requires a == nout2 * size_i && nout == 1 + nout2;
                assert(s2 == s.skip(size_i));
                assert forall|i: int| 0 <= i < s2.skip(a).len() implies s2.skip(a)[i] == s.skip(
                    size_i + a,
                )[i] by {
                    assert(s2.skip(a)[i] == s2[i + a]);
                    assert(s.skip(size_i)[i + a] == s[i + a + size_i]);
                    assert(s.skip(size_i + a)[i] == s[i + size_i + a]);
                }
                assert(s2.skip(a).len() == s.skip(size_i + a).len());
            }
        } else {
            // The arrival is buffered; the stream is unchanged.
            assert(out1 is None);
            assert(p1.window =~= buf1);
            lemma_pooler_window_run(p1, rest, size);
            let (p2, outs2) = run_pool(p1, rest);
            let s2 = p1.window + rest;
            assert(s2 =~= s);
            let outs = run_pool(p, msgs).1;
            assert(outs =~= outs2);
            assert forall|t: int|
                0 <= t < windows_count(s.len() as int, size_i) implies outs[t]
                == window_emission(p, s, t, size_i) by {
                assert(outs2[t] == window_emission(p1, s2, t, size_i));
            }
        }
    }
}

proof fn lemma_windows_count_nonneg(len: int, size: int)
    ensures
        windows_count(len, size) >= 0,
    decreases len,
{
    if !(size <= 0 || len < size) {
        lemma_windows_count_nonneg(len - size, size)
    }
}

/// A stream holds all of its counted windows.
proof fn lemma_windows_count_bound(len: int, size: int)
    requires
        size >= 1,
        len >= 0,
    ensures
        windows_count(len, size) * size <= len,
        windows_count(len, size) >= 0,
    decreases len,
{
    if len < size {
        assert(windows_count(len, size) == 0);
        assert(0 * size == 0) by (nonlinear_arith);
    } else {
        lemma_windows_count_bound(len - size, size);
        let w = windows_count(len - size, size);
        assert((1 + w) * size == size + w * size) by (nonlinear_arith);
        assert(windows_count(len, size) == 1 + w);
        assert((1 + w) * size <= len);
    }
}

/// Exactly `n` windows fit in `n * size` messages.
pub proof fn lemma_windows_count_exact(n: int, size: int)
    requires
        n >= 0,
        size >= 1,
    ensures
        windows_count(n * size, size) == n,
    decreases n,
{
    if n == 0 {
        assert(0 * size == 0) by (nonlinear_arith);
    } else {
        assert(n * size >= size) by (nonlinear_arith)
            requires n >= 1 && size >= 1;
        assert(n * size - size == (n - 1) * size) by (nonlinear_arith);
        lemma_windows_count_exact(n - 1, size);
    }
}

/// The arrivals for batch `b`, in arrival order.
pub open spec fn bmsgs(msgs: Seq<ProcessMessageView>, b: u64) -> Seq<ProcessMessageView>
    decreases msgs.len(),
{
    if msgs.len() == 0 {
        Seq::empty()
    } else {
        (if msgs[0].batch_id == Some(b) {
            seq![msgs[0]]
        } else {
            Seq::empty()
        }) + bmsgs(msgs.drop_first(), b)
    }
}

/// The emissions for batch `b`, in order.
pub open spec fn bouts(outs: Seq<ProcessMessageView>, b: u64) -> Seq<ProcessMessageView>
    decreases outs.len(),
{
    if outs.len() == 0 {
        Seq::empty()
    } else {
        (if outs[0].batch_id == Some(b) {
            seq![outs[0]]
        } else {
            Seq::empty()
        }) + bouts(outs.drop_first(), b)
    }
}

/// The buffer a BatchId pooler holds for batch `b` (empty if none).
pub open spec fn batch_buf_for(p: BatchPoolerView, b: u64) -> Seq<ProcessMessageView> {
    if bseq_has_key(p.batches, b) {
        p.batches[bseq_key_index(p.batches, b)].1
    } else {
        Seq::empty()
    }
}

proof fn lemma_bouts_concat(a: Seq<ProcessMessageView>, c: Seq<ProcessMessageView>, b: u64)
    ensures
        bouts(a + c, b) == bouts(a, b) + bouts(c, b),
    decreases a.len(),
{
    if a.len() == 0 {
        assert(a + c =~= c);
        assert(bouts(a, b) + bouts(c, b) =~= bouts(c, b));
    } else {
        assert((a + c).drop_first() =~= a.drop_first() + c);
        assert((a + c)[0] == a[0]);
        lemma_bouts_concat(a.drop_first(), c, b);
        assert(bouts(a + c, b) =~= bouts(a, b) + bouts(c, b));
    }
}

/// Removing or adding another key's buffer does not disturb batch `b`.
proof fn lemma_batch_buf_other(
    p: BatchPoolerView,
    p1: BatchPoolerView,
    b2: u64,
    b: u64,
    readd: Option<Seq<ProcessMessageView>>,
)
    requires
        p.wf(),
        b2 != b,
        ({
            let had = bseq_has_key(p.batches, b2);
            let q = bseq_key_index(p.batches, b2);
            let rest = if had {
                p.batches.remove(q)
            } else {
                p.batches
            };
            p1.batches == match readd {
                None => rest,
                Some(buf) => rest.push((b2, buf)),
            }
        }),
    ensures
        bseq_has_key(p1.batches, b) == bseq_has_key(p.batches, b),
        batch_buf_for(p1, b) == batch_buf_for(p, b),
{
    let had2 = bseq_has_key(p.batches, b2);
    let q2 = bseq_key_index(p.batches, b2);
    let rest = if had2 {
        p.batches.remove(q2)
    } else {
        p.batches
    };
    if had2 {
        assert(0 <= q2 < p.batches.len() && p.batches[q2].0 == b2);
        p.batches.remove_ensures(q2);
    }
    // Keys other than b2 keep one entry with the same buffer across the
    // removal and the optional re-insertion.
    assert(bseq_has_key(rest, b) == bseq_has_key(p.batches, b)) by {
        if bseq_has_key(p.batches, b) {
            let q = bseq_key_index(p.batches, b);
            assert(0 <= q < p.batches.len() && p.batches[q].0 == b);
            if had2 {
                assert(q != q2);
                if q < q2 {
                    assert(rest[q] == p.batches[q]);
                    assert(bseq_has_key(rest, b));
                } else {
                    assert(rest[q - 1] == p.batches[q]);
                    assert(bseq_has_key(rest, b));
                }
            }
        }
        if bseq_has_key(rest, b) {
            let q = bseq_key_index(rest, b);
            assert(0 <= q < rest.len() && rest[q].0 == b);
            if had2 {
                if q < q2 {
                    assert(rest[q] == p.batches[q]);
                    assert(bseq_has_key(p.batches, b));
                } else {
                    assert(rest[q] == p.batches[q + 1]);
                    assert(bseq_has_key(p.batches, b));
                }
            }
        }
    }
    assert(batch_buf_for_seq(rest, b) == batch_buf_for(p, b)) by {
        if bseq_has_key(rest, b) {
            let q = bseq_key_index(rest, b);
            assert(0 <= q < rest.len() && rest[q].0 == b);
            let q0 = bseq_key_index(p.batches, b);
            assert(0 <= q0 < p.batches.len() && p.batches[q0].0 == b);
            if had2 {
                if q < q2 {
                    assert(rest[q] == p.batches[q]);
                    lemma_bseq_unique(p, b, q, q0);
                } else {
                    assert(rest[q] == p.batches[q + 1]);
                    lemma_bseq_unique(p, b, q + 1, q0);
                }
            } else {
                lemma_bseq_unique(p, b, q, q0);
            }
        }
    }
    match readd {
        None => {},
        Some(buf) => {
        assert(p1.batches == rest.push((b2, buf)));
        assert(bseq_has_key(p1.batches, b) == bseq_has_key(rest, b)) by {
            if bseq_has_key(rest, b) {
                let q = bseq_key_index(rest, b);
                assert(p1.batches[q] == rest[q]);
                assert(bseq_has_key(p1.batches, b));
            }
            if bseq_has_key(p1.batches, b) {
                let q = bseq_key_index(p1.batches, b);
                assert(0 <= q < p1.batches.len() && p1.batches[q].0 == b);
                assert(q != p1.batches.len() - 1);
                assert(rest[q] == p1.batches[q]);
                assert(bseq_has_key(rest, b));
            }
        }
        assert(batch_buf_for_seq(p1.batches, b) == batch_buf_for_seq(rest, b)) by {
            if bseq_has_key(rest, b) {
                let q = bseq_key_index(p1.batches, b);
                assert(0 <= q < p1.batches.len() && p1.batches[q].0 == b);
                assert(q != p1.batches.len() - 1);
                assert(rest[q] == p1.batches[q]);
                let q3 = bseq_key_index(rest, b);
                assert(0 <= q3 < rest.len() && rest[q3].0 == b);
                if q != q3 {
                    lemma_rest_unique(p, rest, b, q, q3, had2, q2);
                }
            }
        }
        },
    }
}

/// The buffer an arbitrary batch table holds for `b` (empty if none).
pub open spec fn batch_buf_for_seq(batches: Seq<(u64, Seq<ProcessMessageView>)>, b: u64) -> Seq<
    ProcessMessageView,
> {
    if bseq_has_key(batches, b) {
        batches[bseq_key_index(batches, b)].1
    } else {
        Seq::empty()
    }
}

proof fn lemma_bseq_unique(p: BatchPoolerView, b: u64, q1: int, q2: int)
    requires
        p.wf(),
        0 <= q1 < p.batches.len(),
        0 <= q2 < p.batches.len(),
        p.batches[q1].0 == b,
        p.batches[q2].0 == b,
    ensures
        q1 == q2,
{
    if q1 < q2 {
        assert(p.batches[q1].0 != p.batches[q2].0);
    } else if q2 < q1 {
        assert(p.batches[q2].0 != p.batches[q1].0);
    }
}

proof fn lemma_rest_unique(
    p: BatchPoolerView,
    rest: Seq<(u64, Seq<ProcessMessageView>)>,
    b: u64,
    q1: int,
    q3: int,
    had2: bool,
    q2: int,
)
    requires
        p.wf(),
        rest == (if had2 {
            p.batches.remove(q2)
        } else {
            p.batches
        }),
        had2 ==> 0 <= q2 < p.batches.len(),
        0 <= q1 < rest.len(),
        0 <= q3 < rest.len(),
        rest[q1].0 == b,
        rest[q3].0 == b,
    ensures
        q1 == q3,
{
    if had2 {
        p.batches.remove_ensures(q2);
        let o1: int = if q1 < q2 {
            q1
        } else {
            q1 + 1
        };
        let o3: int = if q3 < q2 {
            q3
        } else {
            q3 + 1
        };
        assert(rest[q1] == p.batches[o1]);
        assert(rest[q3] == p.batches[o3]);
        lemma_bseq_unique(p, b, o1, o3);
    } else {
        lemma_bseq_unique(p, b, q1, q3);
    }
}


/// The pooler's transition preserves well-formedness.
proof fn lemma_pool_transition_wf(p: BatchPoolerView, m: ProcessMessageView)
    requires
        p.wf(),
    ensures
        p.transition(m).0.wf(),
{
    let (p1, out) = p.transition(m);
    match p.mode {
        PoolingMode::Window { size } => {},
        PoolingMode::BatchId => {
            match (m.batch_id, m.batch_total) {
                (Some(b), Some(tot)) => {
                    let had = bseq_has_key(p.batches, b);
                    let q = bseq_key_index(p.batches, b);
                    let buf0 = if had {
                        p.batches[q].1
                    } else {
                        Seq::<ProcessMessageView>::empty()
                    };
                    let buf1 = buf0.push(m);
                    let rest = if had {
                        p.batches.remove(q)
                    } else {
                        p.batches
                    };
                    if had {
                        assert(0 <= q < p.batches.len() && p.batches[q].0 == b);
                        p.batches.remove_ensures(q);
                    }
                    assert forall|pp: int, qq: int|
                        0 <= pp < qq < rest.len() implies rest[pp].0 != rest[qq].0 by {}
                    assert(forall|qq: int|
                        0 <= qq < rest.len() ==> (#[trigger] rest[qq]).1.len() < u32::MAX);
                    if buf1.len() >= tot {
                        assert(p1.batches == rest);
                    } else {
                        assert(p1.batches == rest.push((b, buf1)));
                        assert(buf1.len() < tot <= u32::MAX);
                        assert forall|pp: int, qq: int|
                            0 <= pp < qq < p1.batches.len() implies p1.batches[pp].0
                            != p1.batches[qq].0 by {
                            if qq == p1.batches.len() - 1 {
                                assert(p1.batches[qq].0 == b);
                                if had {
                                    if pp < q {
                                        assert(rest[pp] == p.batches[pp]);
                                    } else {
                                        assert(rest[pp] == p.batches[pp + 1]);
                                    }
                                }
                            }
                        }
                    }
                },
                _ => {},
            }
        },
    }
}

/// After the flush of batch `b`, no buffer for it remains.
proof fn lemma_bseq_absent_after_remove(p: BatchPoolerView, b: u64)
    requires
        p.wf(),
        bseq_has_key(p.batches, b),
    ensures
        !bseq_has_key(p.batches.remove(bseq_key_index(p.batches, b)), b),
{
    let q = bseq_key_index(p.batches, b);
    assert(0 <= q < p.batches.len() && p.batches[q].0 == b);
    p.batches.remove_ensures(q);
    let rest = p.batches.remove(q);
    if bseq_has_key(rest, b) {
        let q2 = bseq_key_index(rest, b);
        assert(0 <= q2 < rest.len() && rest[q2].0 == b);
        if q2 < q {
            assert(rest[q2] == p.batches[q2]);
            lemma_bseq_unique(p, b, q2, q);
        } else {
            assert(rest[q2] == p.batches[q2 + 1]);
            lemma_bseq_unique(p, b, q2 + 1, q);
        }
        assert(false);
    }
}

/// Core induction for the BatchId pooler over one batch key.
proof fn lemma_pooler_batch_run(
    p: BatchPoolerView,
    msgs: Seq<ProcessMessageView>,
    b: u64,
    tot: u32,
)
    requires
        p.wf(),
        p.mode == PoolingMode::BatchId,
        tot >= 1,
        forall|t: int| 0 <= t < msgs.len() ==> (#[trigger] msgs[t]).batch_id is Some,
        forall|t: int| 0 <= t < msgs.len() ==> (#[trigger] msgs[t]).batch_total is Some,
        forall|t: int|
            0 <= t < msgs.len() && (#[trigger] msgs[t]).batch_id == Some(b) ==> msgs[t].batch_total
                == Some(tot),
        batch_buf_for(p, b).len() + bmsgs(msgs, b).len() <= tot,
    ensures
        ({
            let (p2, outs) = run_pool(p, msgs);
            let full = batch_buf_for(p, b) + bmsgs(msgs, b);
            &&& p2.wf()
            &&& p2.mode == p.mode
            &&& p2.name == p.name
            &&& p2.output_name == p.output_name
            &&& p2.params == p.params
            &&& p2.window == p.window
            &&& if bmsgs(msgs, b).len() == 0 {
                &&& bouts(outs, b) == Seq::<ProcessMessageView>::empty()
                &&& bseq_has_key(p2.batches, b) == bseq_has_key(p.batches, b)
                &&& batch_buf_for(p2, b) == batch_buf_for(p, b)
            } else if full.len() == tot {
                &&& bouts(outs, b) == seq![
                    ProcessMessageView {
                        id: b,
                        node_id: p.output_name,
                        data: concat_data(full),
                        batch_id: Some(b),
                        batch_total: Some(tot),
                        trace: bmsgs(msgs, b).last().trace.push(p.trace_rec()),
                    },
                ]
                &&& !bseq_has_key(p2.batches, b)
            } else {
                &&& bouts(outs, b) == Seq::<ProcessMessageView>::empty()
                &&& bseq_has_key(p2.batches, b)
                &&& batch_buf_for(p2, b) == full
            }
        }),
    decreases msgs.len(),
{
    let buf0 = batch_buf_for(p, b);
    let mine = bmsgs(msgs, b);
    let full = buf0 + mine;
    if msgs.len() == 0 {
        assert(full =~= buf0);
    } else {
        let m0 = msgs[0];
        let rest = msgs.drop_first();
        let (p1, out1) = p.transition(m0);
        assert(p1.wf()) by {
            lemma_pool_transition_wf(p, m0);
        }
        let b0 = m0.batch_id->0;
        let tot0 = m0.batch_total->0;
        let outs = run_pool(p, msgs).1;
        let outs2 = run_pool(p1, rest).1;
        if b0 == b {
            assert(tot0 == tot);
            assert(mine == seq![m0] + bmsgs(rest, b));
            assert(mine.len() >= 1);
            let had = bseq_has_key(p.batches, b);
            let q = bseq_key_index(p.batches, b);
            let buf1 = buf0.push(m0);
            assert((if had {
                p.batches[q].1
            } else {
                Seq::<ProcessMessageView>::empty()
            }) == buf0);
            let rest_b = if had {
                p.batches.remove(q)
            } else {
                p.batches
            };
            if buf1.len() >= tot {
                // The batch flushes now; no later arrival may carry it.
                assert(buf1.len() == buf0.len() + 1);
                assert(buf0.len() + mine.len() <= tot);
                assert(mine.len() <= 1);
                assert(bmsgs(rest, b).len() == 0);
                assert(mine =~= seq![m0]);
                assert(full =~= buf1);
                assert(buf1.len() == tot);
                let e0 = ProcessMessageView {
                    id: b,
                    node_id: p.output_name,
                    data: concat_data(buf1),
                    batch_id: Some(b),
                    batch_total: Some(buf1.len() as u32),
                    trace: m0.trace.push(p.trace_rec()),
                };
                assert(out1 == Some(e0));
                assert(buf1.len() as u32 == tot);
                assert(p1.batches == rest_b);
                assert(!bseq_has_key(p1.batches, b)) by {
                    if had {
                        lemma_bseq_absent_after_remove(p, b);
                    }
                }
                assert(batch_buf_for(p1, b) =~= Seq::<ProcessMessageView>::empty());
                lemma_pooler_batch_run(p1, rest, b, tot);
                assert(bouts(outs2, b) == Seq::<ProcessMessageView>::empty());
                assert(outs == seq![e0] + outs2);
                lemma_bouts_concat(seq![e0], outs2, b);
                assert(bouts(seq![e0], b) =~= seq![e0]) by {
                    assert(seq![e0].drop_first() =~= Seq::<ProcessMessageView>::empty());
                    assert(bouts(Seq::<ProcessMessageView>::empty(), b)
                        == Seq::<ProcessMessageView>::empty());
                    assert(seq![e0][0] == e0);
                }
                assert(bouts(outs, b) =~= seq![e0]);
                assert(mine.last() == m0);
                assert(!bseq_has_key(run_pool(p, msgs).0.batches, b));
            } else {
                assert(out1 is None);
                assert(p1.batches == rest_b.push((b, buf1)));
                assert(bseq_has_key(p1.batches, b)) by {
                    assert(p1.batches[p1.batches.len() - 1].0 == b);
                }
                assert(batch_buf_for(p1, b) == buf1) by {
                    let q2 = bseq_key_index(p1.batches, b);
                    assert(0 <= q2 < p1.batches.len() && p1.batches[q2].0 == b);
                    if q2 != p1.batches.len() - 1 {
                        assert(p1.batches[q2].0 != p1.batches[p1.batches.len() - 1].0);
                        assert(false);
                    }
                }
                assert(buf1.len() + bmsgs(rest, b).len() <= tot);
                lemma_pooler_batch_run(p1, rest, b, tot);
                assert(outs == outs2);
                let full2 = buf1 + bmsgs(rest, b);
                assert(full2 =~= full);
                if bmsgs(rest, b).len() == 0 {
                    assert(full.len() == buf1.len() < tot);
                    assert(bouts(outs, b) == Seq::<ProcessMessageView>::empty());
                    assert(bseq_has_key(run_pool(p, msgs).0.batches, b));
                    assert(batch_buf_for(run_pool(p, msgs).0, b) == buf1);
                    assert(batch_buf_for(run_pool(p, msgs).0, b) =~= full);
                } else {
                    assert(bmsgs(rest, b).last() == mine.last());
                }
            }
        } else {
            // Another batch's arrival: batch b's buffer is untouched and any
            // emission carries the other key.
            assert(m0.batch_id == Some(b0));
            assert(mine == bmsgs(rest, b));
            match (m0.batch_id, m0.batch_total) {
                (Some(bb), Some(tt)) => {
                    assert(bb == b0);
                    let had2 = bseq_has_key(p.batches, b0);
                    let q2 = bseq_key_index(p.batches, b0);
                    let buf0x = if had2 {
                        p.batches[q2].1
                    } else {
                        Seq::<ProcessMessageView>::empty()
                    };
                    let buf1x = buf0x.push(m0);
                    let rest2 = if had2 {
                        p.batches.remove(q2)
                    } else {
                        p.batches
                    };
                    if buf1x.len() >= tt {
                        assert(p1.batches == rest2);
                        assert(out1 == Some(
                            ProcessMessageView {
                                id: b0,
                                node_id: p.output_name,
                                data: concat_data(buf1x),
                                batch_id: Some(b0),
                                batch_total: Some(buf1x.len() as u32),
                                trace: m0.trace.push(p.trace_rec()),
                            },
                        ));
                        lemma_batch_buf_other(p, p1, b0, b, None);
                    } else {
                        assert(p1.batches == rest2.push((b0, buf1x)));
                        lemma_batch_buf_other(p, p1, b0, b, Some(buf1x));
                    }
                    lemma_pooler_batch_run(p1, rest, b, tot);
                    match out1 {
                        Some(o) => {
                            assert(o.batch_id == Some(b0));
                            assert(outs == seq![o] + outs2);
                            lemma_bouts_concat(seq![o], outs2, b);
                            assert(bouts(seq![o], b) =~= Seq::<ProcessMessageView>::empty()) by {
                                assert(seq![o].drop_first()
                                    =~= Seq::<ProcessMessageView>::empty());
                                assert(bouts(Seq::<ProcessMessageView>::empty(), b)
                                    == Seq::<ProcessMessageView>::empty());
                                assert(seq![o][0] == o);
                                assert(seq![o][0].batch_id != Some(b));
                            }
                            assert(bouts(outs, b) =~= bouts(outs2, b));
                        },
                        None => {
                            assert(outs == outs2);
                        },
                    }
                },
                _ => {
                    assert(false);
                },
            }
        }
    }
}

/// Pooler BatchId grouping.
///
/// Law: arrivals that share a batch id are emitted together and in arrival
/// order, and arrivals of different batch ids never mix. For a fresh batch
/// `b` announcing `tot` members, once exactly `tot` arrivals carry it the
/// run emits exactly one message for `b`: its id is `b`, its data the
/// concatenation of those arrivals' data in arrival order, and its batch
/// fields name `b` and `tot`; the buffer for `b` is gone afterwards.
pub proof fn lemma_pooler_batch_grouping(
    p: BatchPoolerView,
    msgs: Seq<ProcessMessageView>,
    b: u64,
    tot: u32,
)
    requires
        p.wf(),
        p.mode == PoolingMode::BatchId,
        tot >= 1,
        !bseq_has_key(p.batches, b),
        forall|t: int| 0 <= t < msgs.len() ==> (#[trigger] msgs[t]).batch_id is Some,
        forall|t: int| 0 <= t < msgs.len() ==> (#[trigger] msgs[t]).batch_total is Some,
        forall|t: int|
            0 <= t < msgs.len() && (#[trigger] msgs[t]).batch_id == Some(b) ==> msgs[t].batch_total
                == Some(tot),
        bmsgs(msgs, b).len() == tot,
    ensures
        bouts(run_pool(p, msgs).1, b) == (seq![
            ProcessMessageView {
                id: b,
                node_id: p.output_name,
                data: concat_data(bmsgs(msgs, b)),
                batch_id: Some(b),
                batch_total: Some(tot),
                trace: bmsgs(msgs, b).last().trace.push(p.trace_rec()),
            },
        ]),
        !bseq_has_key(run_pool(p, msgs).0.batches, b),
{
    lemma_pooler_batch_run(p, msgs, b, tot);
    assert(batch_buf_for(p, b) =~= Seq::<ProcessMessageView>::empty());
    assert(batch_buf_for(p, b) + bmsgs(msgs, b) =~= bmsgs(msgs, b));
}

/// Pooler BatchId incompleteness: while fewer arrivals than announced have
/// come for batch `b`, nothing is emitted for it and the buffer holds the
/// arrivals so far in order.
pub proof fn lemma_pooler_batch_incomplete(
    p: BatchPoolerView,
    msgs: Seq<ProcessMessageView>,
    b: u64,
    tot: u32,
)
    requires
        p.wf(),
        p.mode == PoolingMode::BatchId,
        tot >= 1,
        !bseq_has_key(p.batches, b),
        forall|t: int| 0 <= t < msgs.len() ==> (#[trigger] msgs[t]).batch_id is Some,
        forall|t: int| 0 <= t < msgs.len() ==> (#[trigger] msgs[t]).batch_total is Some,
        forall|t: int|
            0 <= t < msgs.len() && (#[trigger] msgs[t]).batch_id == Some(b) ==> msgs[t].batch_total
                == Some(tot),
        bmsgs(msgs, b).len() < tot,
    ensures
        bouts(run_pool(p, msgs).1, b) == Seq::<ProcessMessageView>::empty(),
        bmsgs(msgs, b).len() > 0 ==> batch_buf_for(run_pool(p, msgs).0, b) == bmsgs(msgs, b),
{
    lemma_pooler_batch_run(p, msgs, b, tot);
    assert(batch_buf_for(p, b) =~= Seq::<ProcessMessageView>::empty());
    assert(batch_buf_for(p, b) + bmsgs(msgs, b) =~= bmsgs(msgs, b));
}


impl crate::step::Step for BatchPooler {
    fn name(&self) -> &str {
        self.name.as_str()
    }

    fn output_name(&self) -> &str {
        self.output_name.as_str()
    }

    fn params(&self) -> &Params {
        &self.params
    }
}

} // verus!
