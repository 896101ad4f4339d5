use vstd::prelude::*;

use crate::messages::{ProcessMessage, ProcessMessageView};
use crate::step::{Params, ParamsView, Trace, TraceStep, TraceStepView};
use crate::steps::data_generator::SourceState;

verus! {

/// Emits one message per parsed data line of a file. Opening the file and
/// parsing its numbers happen at the embedder's edge; this step owns the
/// ids, the limit and the batch counters, exactly as the generator does.
pub struct CsvReader {
    pub name: String,
    pub output_name: String,
    pub file_path: String,
    pub interval_secs: u64,
    pub state: SourceState,
    pub params: Params,
}

pub ghost struct CsvReaderView {
    pub name: Seq<char>,
    pub output_name: Seq<char>,
    pub file_path: Seq<char>,
    pub interval_secs: u64,
    pub state: SourceState,
    pub params: ParamsView,
}

impl View for CsvReader {
    type V = CsvReaderView;

    open spec fn view(&self) -> CsvReaderView {
        CsvReaderView {
            name: self.name@,
            output_name: self.output_name@,
            file_path: self.file_path@,
            interval_secs: self.interval_secs,
            state: self.state,
            params: self.params@,
        }
    }
}

impl CsvReaderView {
    pub open spec fn trace_rec(self) -> TraceStepView {
        TraceStepView { node_id: self.name, duration_micros: 0, params: self.params }
    }

    /// The message this reader emits for `id`, batch fields and payload.
    pub open spec fn emission(
        self,
        id: u64,
        bid: Option<u64>,
        btot: Option<u32>,
        data: Seq<u64>,
    ) -> ProcessMessageView {
        ProcessMessageView {
            id,
            node_id: self.output_name,
            data,
            batch_id: bid,
            batch_total: btot,
            trace: seq![self.trace_rec()],
        }
    }
}

impl CsvReader {
    /// Builds a reader from its declaration; `file_path` defaults to the
    /// empty string when absent.
    pub fn new_from_params(name: String, output_name: String, params: Params) -> (r: CsvReader)
        ensures
            r@.name == name@,
            r@.output_name == output_name@,
            r@.interval_secs == 1,
            r@.file_path == (match params@.file_path {
                Some(p) => p,
                None => Seq::<char>::empty(),
            }),
            r@.state == SourceState::initial(params@),
            r@.params == params@,
    {
        let file_path = match &params.file_path {
            Some(p) => p.clone(),
            None => String::new(),
        };
        let state = SourceState::new_from_params(&params);
        CsvReader { name, output_name, file_path, interval_secs: 1, state, params }
    }

    /// Wraps one parsed line (already turned into data words) as the next
    /// emission, or reports `None` when the configured limit is reached.
    pub fn next_message(&mut self, data: Vec<u64>) -> (r: Option<ProcessMessage>)
        requires
            old(self)@.state.headroom(),
        ensures
            final(self)@.name == old(self)@.name,
            final(self)@.output_name == old(self)@.output_name,
            final(self)@.file_path == old(self)@.file_path,
            final(self)@.interval_secs == old(self)@.interval_secs,
            final(self)@.params == old(self)@.params,
            old(self)@.state.exhausted() ==> r is None && final(self)@ == old(self)@,
            !old(self)@.state.exhausted() ==> ({
                let (bid, btot, next) = old(self)@.state.batch_advance();
                &&& r is Some
                &&& r->0@ == old(self)@.emission(old(self)@.state.next_id, bid, btot, data@)
                &&& final(self)@.state == (SourceState {
                    next_id: (old(self)@.state.next_id + 1) as u64,
                    current_count: (old(self)@.state.current_count + 1) as u32,
                    ..next
                })
            }),
    {
        let ghost pre = self@;
        match self.state.advance() {
            Some((id, bid, btot)) => {
                let rec = TraceStep::new(self.name.as_str(), 0, self.params.duplicate());
                assert(rec@ == pre.trace_rec());
                let mut trace = Trace::new();
                trace.add_step(rec);
                assert(trace@ =~= seq![pre.trace_rec()]);
                Some(
                    ProcessMessage {
                        id,
                        node_id: self.output_name.clone(),
                        data,
                        batch_id: bid,
                        batch_total: btot,
                        trace,
                    },
                )
            },
            None => None,
        }
    }
}


impl crate::step::Step for CsvReader {
    fn name(&self) -> &str {
        self.name.as_str()
    }

    fn output_name(&self) -> &str {
        self.output_name.as_str()
    }

    fn params(&self) -> &Params {
        &self.params
    }
}

} // verus!
