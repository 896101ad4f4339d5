use vstd::prelude::*;

use crate::step::{Params, ParamsView};

verus! {

/// A single step declaration in the DAG configuration.
pub struct StepConfig {
    /// Unique step name.
    pub name: String,
    /// The step kind, e.g. "DataGenerator", "StepJoinPoint" or "Printer".
    pub node_type: String,
    /// Names this step consumes.
    pub inputs: Vec<String>,
    /// Names this step produces.
    pub outputs: Vec<String>,
    /// Kind-specific parameters.
    pub params: Params,
}

pub ghost struct StepConfigView {
    pub name: Seq<char>,
    pub node_type: Seq<char>,
    pub inputs: Seq<Seq<char>>,
    pub outputs: Seq<Seq<char>>,
    pub params: ParamsView,
}

impl View for StepConfig {
    type V = StepConfigView;

    open spec fn view(&self) -> StepConfigView {
        StepConfigView {
            name: self.name@,
            node_type: self.node_type@,
            inputs: Seq::new(self.inputs@.len(), |i: int| self.inputs@[i]@),
            outputs: Seq::new(self.outputs@.len(), |i: int| self.outputs@[i]@),
            params: self.params@,
        }
    }
}

/// The entire DAG configuration: an ordered list of step declarations,
/// plus the runtime mode it will be validated for.
pub struct Config {
    pub steps: Vec<StepConfig>,
    /// True in request/response mode, where a virtual ingress feeds the graph.
    pub http_mode: bool,
}

pub ghost struct ConfigView {
    pub steps: Seq<StepConfigView>,
    pub http_mode: bool,
}

impl View for Config {
    type V = ConfigView;

    open spec fn view(&self) -> ConfigView {
        ConfigView {
            steps: Seq::new(self.steps@.len(), |i: int| self.steps@[i]@),
            http_mode: self.http_mode,
        }
    }
}

} // verus!
