use vstd::prelude::*;

use crate::messages::{ProcessMessage, ProcessMessageView};
use crate::step::{Params, ParamsView, TraceStep, TraceStepView};

verus! {

/// The terminal sink of a streaming graph: it consumes messages and never
/// emits. Each consumed message, with this step's trace record appended,
/// is kept in arrival order; writing them to standard output is the
/// embedder's job.
pub struct Printer {
    pub name: String,
    pub output_name: String,
    pub received: Vec<ProcessMessage>,
    pub params: Params,
}

pub ghost struct PrinterView {
    pub name: Seq<char>,
    pub output_name: Seq<char>,
    pub received: Seq<ProcessMessageView>,
    pub params: ParamsView,
}

impl View for Printer {
    type V = PrinterView;

    open spec fn view(&self) -> PrinterView {
        PrinterView {
            name: self.name@,
            output_name: self.output_name@,
            received: Seq::new(self.received@.len(), |i: int| self.received@[i]@),
            params: self.params@,
        }
    }
}

impl PrinterView {
    pub open spec fn trace_rec(self) -> TraceStepView {
        TraceStepView { node_id: self.name, duration_micros: 0, params: self.params }
    }

    /// The record kept for a consumed message.
    pub open spec fn recorded(self, m: ProcessMessageView) -> ProcessMessageView {
        ProcessMessageView { trace: m.trace.push(self.trace_rec()), ..m }
    }
}

impl Printer {
    /// Builds a printer from its declaration.
    pub fn new_from_params(name: String, output_name: String, params: Params) -> (r: Printer)
        ensures
            r@.name == name@,
            r@.output_name == output_name@,
            r@.received == Seq::<ProcessMessageView>::empty(),
            r@.params == params@,
    {
        let r = Printer { name, output_name, received: Vec::new(), params };
        assert(r@.received =~= Seq::<ProcessMessageView>::empty());
        r
    }

    /// Consumes one message: its trace is completed with this step's
    /// record and it is appended to the log. Nothing is emitted.
    pub fn handle(&mut self, msg: ProcessMessage)
        ensures
            final(self)@.name == old(self)@.name,
            final(self)@.output_name == old(self)@.output_name,
            final(self)@.params == old(self)@.params,
            final(self)@.received == old(self)@.received.push(old(self)@.recorded(msg@)),
    {
        let ghost pre = self@;
        let ghost m = msg@;
        let rec = TraceStep::new(self.name.as_str(), 0, self.params.duplicate());
        assert(rec@ == pre.trace_rec());
        let mut msg = msg;
        let mut trace = msg.trace;
        trace.add_step(rec);
        msg.trace = trace;
        assert(msg@ == pre.recorded(m));
        self.received.push(msg);
        assert(self@.received =~= pre.received.push(pre.recorded(m)));
    }
}


impl crate::step::Step for Printer {
    fn name(&self) -> &str {
        self.name.as_str()
    }

    fn output_name(&self) -> &str {
        self.output_name.as_str()
    }

    fn params(&self) -> &Params {
        &self.params
    }
}

} // verus!
