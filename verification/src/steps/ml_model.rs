use vstd::prelude::*;

use crate::messages::{ProcessMessage, ProcessMessageView};
use crate::step::{Params, ParamsView, TraceStep, TraceStepView};

verus! {

/// Makes predictions from processed feature data. The inference itself —
/// a hosted model file or a remote call — is a pluggable numeric leaf run
/// at the embedder's edge; this step rejects empty inputs, frames the
/// prediction and re-emits it under its own output name.
pub struct MLModel {
    pub name: String,
    pub output_name: String,
    /// URL of a remote model service, if configured.
    pub remote_endpoint: Option<String>,
    /// Path of a hosted model file, if configured.
    pub onnx_model_path: Option<String>,
    pub params: Params,
}

pub ghost struct MLModelView {
    pub name: Seq<char>,
    pub output_name: Seq<char>,
    pub remote_endpoint: Option<Seq<char>>,
    pub onnx_model_path: Option<Seq<char>>,
    pub params: ParamsView,
}

impl View for MLModel {
    type V = MLModelView;

    open spec fn view(&self) -> MLModelView {
        MLModelView {
            name: self.name@,
            output_name: self.output_name@,
            remote_endpoint: crate::step::view_of_opt_string(self.remote_endpoint),
            onnx_model_path: crate::step::view_of_opt_string(self.onnx_model_path),
            params: self.params@,
        }
    }
}

impl MLModelView {
    pub open spec fn trace_rec(self) -> TraceStepView {
        TraceStepView { node_id: self.output_name, duration_micros: 0, params: self.params }
    }

    /// What this step emits once the model has produced `prediction`.
    pub open spec fn emission(self, m: ProcessMessageView, prediction: Seq<u64>) -> ProcessMessageView {
        ProcessMessageView {
            id: m.id,
            node_id: self.output_name,
            data: prediction,
            batch_id: m.batch_id,
            batch_total: m.batch_total,
            trace: m.trace.push(self.trace_rec()),
        }
    }
}

impl MLModel {
    /// Builds the step from its declaration.
    pub fn new_from_params(name: String, output_name: String, params: Params) -> (r: MLModel)
        ensures
            r@.name == name@,
            r@.output_name == output_name@,
            r@.remote_endpoint == params@.remote_endpoint,
            r@.onnx_model_path == params@.onnx_model_path,
            r@.params == params@,
    {
        let remote_endpoint = match &params.remote_endpoint {
            Some(p) => Some(p.clone()),
            None => None,
        };
        let onnx_model_path = match &params.onnx_model_path {
            Some(p) => Some(p.clone()),
            None => None,
        };
        MLModel { name, output_name, remote_endpoint, onnx_model_path, params }
    }

    /// Whether this step would accept the message: empty feature data is
    /// rejected (and the message dropped) before any inference runs.
    pub fn accepts(&self, msg: &ProcessMessage) -> (r: bool)
        ensures
            r == (msg@.data.len() > 0),
    {
        msg.data.len() > 0
    }

    /// Re-emits `msg` carrying the prediction the model produced for it, or
    /// drops the message when its data was empty.
    pub fn handle(&self, msg: ProcessMessage, prediction: Vec<u64>) -> (r: Option<ProcessMessage>)
        ensures
            msg@.data.len() == 0 ==> r is None,
            msg@.data.len() > 0 ==> r is Some && r->0@ == self@.emission(msg@, prediction@),
    {
        if msg.data.len() == 0 {
            return None;
        }
        let ghost pre = self@;
        let rec = TraceStep::new(self.output_name.as_str(), 0, self.params.duplicate());
        assert(rec@ == pre.trace_rec());
        let mut trace = msg.trace;
        trace.add_step(rec);
        Some(
            ProcessMessage {
                id: msg.id,
                node_id: self.output_name.clone(),
                data: prediction,
                batch_id: msg.batch_id,
                batch_total: msg.batch_total,
                trace,
            },
        )
    }
}


impl crate::step::Step for MLModel {
    fn name(&self) -> &str {
        self.name.as_str()
    }

    fn output_name(&self) -> &str {
        self.output_name.as_str()
    }

    fn params(&self) -> &Params {
        &self.params
    }
}

} // verus!
