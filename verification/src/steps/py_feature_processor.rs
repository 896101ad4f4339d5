use vstd::prelude::*;

use crate::messages::{ProcessMessage, ProcessMessageView};
use crate::step::{Params, ParamsView, TraceStep, TraceStepView};

verus! {

/// A transform whose numeric work runs in an embedded interpreter at the
/// embedder's edge. When the script yields a vector the message is
/// re-emitted with it; when the script fails the message is dropped.
pub struct PyFeatureProcessor {
    pub name: String,
    pub output_name: String,
    /// Path of the script the embedder runs, if configured.
    pub python_script: Option<String>,
    pub params: Params,
}

pub ghost struct PyFeatureProcessorView {
    pub name: Seq<char>,
    pub output_name: Seq<char>,
    pub python_script: Option<Seq<char>>,
    pub params: ParamsView,
}

impl View for PyFeatureProcessor {
    type V = PyFeatureProcessorView;

    open spec fn view(&self) -> PyFeatureProcessorView {
        PyFeatureProcessorView {
            name: self.name@,
            output_name: self.output_name@,
            python_script: crate::step::view_of_opt_string(self.python_script),
            params: self.params@,
        }
    }
}

impl PyFeatureProcessorView {
    pub open spec fn trace_rec(self) -> TraceStepView {
        TraceStepView { node_id: self.name, duration_micros: 0, params: self.params }
    }

    /// What this step emits once the interpreter has produced `processed`.
    pub open spec fn emission(self, m: ProcessMessageView, processed: Seq<u64>) -> ProcessMessageView {
        ProcessMessageView {
            id: m.id,
            node_id: self.output_name,
            data: processed,
            batch_id: m.batch_id,
            batch_total: m.batch_total,
            trace: m.trace.push(self.trace_rec()),
        }
    }
}

impl PyFeatureProcessor {
    /// Builds the step from its declaration.
    pub fn new_from_params(name: String, output_name: String, params: Params) -> (r: PyFeatureProcessor)
        ensures
            r@.name == name@,
            r@.output_name == output_name@,
            r@.python_script == params@.python_script,
            r@.params == params@,
    {
        let python_script = match &params.python_script {
            Some(p) => Some(p.clone()),
            None => None,
        };
        PyFeatureProcessor { name, output_name, python_script, params }
    }

    /// Re-emits `msg` with what the interpreter produced, or drops it when
    /// the script produced nothing.
    pub fn handle(&self, msg: ProcessMessage, processed: Option<Vec<u64>>) -> (r: Option<
        ProcessMessage,
    >)
        ensures
            match processed {
                Some(data) => r is Some && r->0@ == self@.emission(msg@, data@),
                None => r is None,
            },
    {
        let ghost pre = self@;
        match processed {
            Some(data) => {
                let rec = TraceStep::new(self.name.as_str(), 0, self.params.duplicate());
                assert(rec@ == pre.trace_rec());
                let mut trace = msg.trace;
                trace.add_step(rec);
                Some(
                    ProcessMessage {
                        id: msg.id,
                        node_id: self.output_name.clone(),
                        data,
                        batch_id: msg.batch_id,
                        batch_total: msg.batch_total,
                        trace,
                    },
                )
            },
            None => None,
        }
    }
}


impl crate::step::Step for PyFeatureProcessor {
    fn name(&self) -> &str {
        self.name.as_str()
    }

    fn output_name(&self) -> &str {
        self.output_name.as_str()
    }

    fn params(&self) -> &Params {
        &self.params
    }
}

} // verus!
