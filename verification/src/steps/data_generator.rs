use vstd::prelude::*;

use crate::messages::{ProcessMessage, ProcessMessageView};
use crate::step::{Params, ParamsView, Trace, TraceStep, TraceStepView};

verus! {

/// The bookkeeping every source shares: monotone message ids, an optional
/// emission limit, and the batch counters. `batch_id` advances every
/// `batch_size` emissions; `batch_total` announces the batch size.
pub struct SourceState {
    pub limit: Option<u32>,
    pub current_count: u32,
    pub next_id: u64,
    pub send_batch_info: bool,
    pub batch_size: Option<u32>,
    pub current_batch_id: u64,
    pub current_batch_count: u32,
}

impl SourceState {
    /// The counters a fresh source starts with, as the given parameters ask.
    pub open spec fn initial(params: ParamsView) -> SourceState {
        SourceState {
            limit: params.limit,
            current_count: 0,
            next_id: 1,
            send_batch_info: match params.batch_mode {
                Some(b) => b,
                None => false,
            },
            batch_size: params.batch_size,
            current_batch_id: 1,
            current_batch_count: 0,
        }
    }

    /// Whether the emission limit has been reached.
    pub open spec fn exhausted(self) -> bool {
        match self.limit {
            Some(l) => self.current_count >= l,
            None => false,
        }
    }

    /// The batch fields of the next emission and the counters after it.
    /// With batching off (or no size configured) no batch fields are set.
    pub open spec fn batch_advance(self) -> (Option<u64>, Option<u32>, SourceState) {
        if self.send_batch_info && self.batch_size is Some {
            let size = self.batch_size->0;
            let (bid, cnt): (u64, u32) = if self.current_batch_count >= size {
                ((self.current_batch_id + 1) as u64, 0u32)
            } else {
                (self.current_batch_id, self.current_batch_count)
            };
            (
                Some(bid),
                Some(size),
                SourceState {
                    current_batch_id: bid,
                    current_batch_count: (cnt + 1) as u32,
                    ..self
                },
            )
        } else {
            (None, None, self)
        }
    }

    /// Room is left before any counter could wrap.
    pub open spec fn headroom(self) -> bool {
        &&& self.next_id < u64::MAX
        &&& self.current_count < u32::MAX
        &&& self.current_batch_id < u64::MAX
        &&& self.current_batch_count < u32::MAX
    }

    /// Builds the counters a fresh source starts with.
    pub fn new_from_params(params: &Params) -> (r: SourceState)
        ensures
            r == SourceState::initial(params@),
    {
        let batch_mode = match params.batch_mode {
            Some(b) => b,
            None => false,
        };
        SourceState {
            limit: params.limit,
            current_count: 0,
            next_id: 1,
            send_batch_info: batch_mode,
            batch_size: params.batch_size,
            current_batch_id: 1,
            current_batch_count: 0,
        }
    }

    /// Advances the counters for one emission and hands back its id and
    /// batch fields, or `None` when the limit is reached.
    pub fn advance(&mut self) -> (r: Option<(u64, Option<u64>, Option<u32>)>)
        requires
            old(self).headroom(),
        ensures
            old(self).exhausted() ==> r is None && *final(self) == *old(self),
            !old(self).exhausted() ==> ({
                let (bid, btot, next) = old(self).batch_advance();
                &&& r == Some((old(self).next_id, bid, btot))
                &&& *final(self) == (SourceState {
                    next_id: (old(self).next_id + 1) as u64,
                    current_count: (old(self).current_count + 1) as u32,
                    ..next
                })
            }),
    {
        match self.limit {
            Some(l) => {
                if self.current_count >= l {
                    return None;
                }
            },
            None => {},
        }
        let id = self.next_id;
        self.next_id = self.next_id + 1;
        self.current_count = self.current_count + 1;
        let (bid, btot): (Option<u64>, Option<u32>) = if self.send_batch_info {
            match self.batch_size {
                Some(size) => {
                    if self.current_batch_count >= size {
                        self.current_batch_id = self.current_batch_id + 1;
                        self.current_batch_count = 0;
                    }
                    let current = self.current_batch_id;
                    self.current_batch_count = self.current_batch_count + 1;
                    (Some(current), Some(size))
                },
                None => (None, None),
            }
        } else {
            (None, None)
        };
        Some((id, bid, btot))
    }
}

/// Emits feature vectors under its output name. The vector content comes
/// from outside (a random draw by the embedder); this step owns the ids,
/// the limit and the batch counters.
pub struct DataGenerator {
    pub name: String,
    pub output_name: String,
    pub interval_secs: u64,
    pub state: SourceState,
    pub params: Params,
}

pub ghost struct DataGeneratorView {
    pub name: Seq<char>,
    pub output_name: Seq<char>,
    pub interval_secs: u64,
    pub state: SourceState,
    pub params: ParamsView,
}

impl View for DataGenerator {
    type V = DataGeneratorView;

    open spec fn view(&self) -> DataGeneratorView {
        DataGeneratorView {
            name: self.name@,
            output_name: self.output_name@,
            interval_secs: self.interval_secs,
            state: self.state,
            params: self.params@,
        }
    }
}

impl DataGeneratorView {
    pub open spec fn trace_rec(self) -> TraceStepView {
        TraceStepView { node_id: self.name, duration_micros: 0, params: self.params }
    }

    /// The message this source emits for `id`, batch fields and payload.
    pub open spec fn emission(
        self,
        id: u64,
        bid: Option<u64>,
        btot: Option<u32>,
        data: Seq<u64>,
    ) -> ProcessMessageView {
        ProcessMessageView {
            id,
            node_id: self.output_name,
            data,
            batch_id: bid,
            batch_total: btot,
            trace: seq![self.trace_rec()],
        }
    }
}

impl DataGenerator {
    /// Builds a generator from its declaration.
    pub fn new_from_params(name: String, output_name: String, params: Params) -> (r: DataGenerator)
        ensures
            r@.name == name@,
            r@.output_name == output_name@,
            r@.interval_secs == 1,
            r@.state == SourceState::initial(params@),
            r@.params == params@,
    {
        let state = SourceState::new_from_params(&params);
        DataGenerator { name, output_name, interval_secs: 1, state, params }
    }

    /// Wraps one externally produced feature vector as the next emission,
    /// or reports `None` when the configured limit is reached.
    pub fn next_message(&mut self, data: Vec<u64>) -> (r: Option<ProcessMessage>)
        requires
            old(self)@.state.headroom(),
        ensures
            final(self)@.name == old(self)@.name,
            final(self)@.output_name == old(self)@.output_name,
            final(self)@.interval_secs == old(self)@.interval_secs,
            final(self)@.params == old(self)@.params,
            old(self)@.state.exhausted() ==> r is None && final(self)@ == old(self)@,
            !old(self)@.state.exhausted() ==> ({
                let (bid, btot, next) = old(self)@.state.batch_advance();
                &&& r is Some
                &&& r->0@ == old(self)@.emission(old(self)@.state.next_id, bid, btot, data@)
                &&& final(self)@.state == (SourceState {
                    next_id: (old(self)@.state.next_id + 1) as u64,
                    current_count: (old(self)@.state.current_count + 1) as u32,
                    ..next
                })
            }),
    {
        let ghost pre = self@;
        match self.state.advance() {
            Some((id, bid, btot)) => {
                let rec = TraceStep::new(self.name.as_str(), 0, self.params.duplicate());
                assert(rec@ == pre.trace_rec());
                let mut trace = Trace::new();
                trace.add_step(rec);
                assert(trace@ =~= seq![pre.trace_rec()]);
                Some(
                    ProcessMessage {
                        id,
                        node_id: self.output_name.clone(),
                        data,
                        batch_id: bid,
                        batch_total: btot,
                        trace,
                    },
                )
            },
            None => None,
        }
    }
}


impl crate::step::Step for DataGenerator {
    fn name(&self) -> &str {
        self.name.as_str()
    }

    fn output_name(&self) -> &str {
        self.output_name.as_str()
    }

    fn params(&self) -> &Params {
        &self.params
    }
}

} // verus!
