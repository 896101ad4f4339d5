use vstd::prelude::*;

use crate::messages::{ProcessMessage, ProcessMessageView};
use crate::step::{Params, ParamsView, TraceStep, TraceStepView};

verus! {

/// A stateless per-message transform. The numeric work (normalization,
/// encoding) runs on floating-point values at the embedder's edge; this
/// step frames the computed vector, appends its trace record and re-emits
/// under its own output name.
pub struct FeatureProcessor {
    pub name: String,
    pub output_name: String,
    pub params: Params,
}

pub ghost struct FeatureProcessorView {
    pub name: Seq<char>,
    pub output_name: Seq<char>,
    pub params: ParamsView,
}

impl View for FeatureProcessor {
    type V = FeatureProcessorView;

    open spec fn view(&self) -> FeatureProcessorView {
        FeatureProcessorView { name: self.name@, output_name: self.output_name@, params: self.params@ }
    }
}

impl FeatureProcessorView {
    pub open spec fn trace_rec(self) -> TraceStepView {
        TraceStepView { node_id: self.name, duration_micros: 0, params: self.params }
    }

    /// What this step emits for the incoming message `m` once the embedder
    /// has computed `processed` from `m`'s data: id and batch fields kept,
    /// the new data in place, the trace extended.
    pub open spec fn emission(self, m: ProcessMessageView, processed: Seq<u64>) -> ProcessMessageView {
        ProcessMessageView {
            id: m.id,
            node_id: self.output_name,
            data: processed,
            batch_id: m.batch_id,
            batch_total: m.batch_total,
            trace: m.trace.push(self.trace_rec()),
        }
    }
}

impl FeatureProcessor {
    /// Builds a transform from its declaration.
    pub fn new_from_params(name: String, output_name: String, params: Params) -> (r: FeatureProcessor)
        ensures
            r@.name == name@,
            r@.output_name == output_name@,
            r@.params == params@,
    {
        FeatureProcessor { name, output_name, params }
    }

    /// Re-emits `msg` with the computed data under this step's output name.
    pub fn handle(&self, msg: ProcessMessage, processed: Vec<u64>) -> (r: ProcessMessage)
        ensures
            r@ == self@.emission(msg@, processed@),
    {
        let ghost pre = self@;
        let rec = TraceStep::new(self.name.as_str(), 0, self.params.duplicate());
        assert(rec@ == pre.trace_rec());
        let mut trace = msg.trace;
        trace.add_step(rec);
        ProcessMessage {
            id: msg.id,
            node_id: self.output_name.clone(),
            data: processed,
            batch_id: msg.batch_id,
            batch_total: msg.batch_total,
            trace,
        }
    }
}


impl crate::step::Step for FeatureProcessor {
    fn name(&self) -> &str {
        self.name.as_str()
    }

    fn output_name(&self) -> &str {
        self.output_name.as_str()
    }

    fn params(&self) -> &Params {
        &self.params
    }
}

} // verus!
