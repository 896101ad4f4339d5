use vstd::prelude::*;

verus! {

/// Parameters a step declaration may carry. Each step kind reads the
/// fields it recognizes and ignores the rest; absent fields are `None`.
pub struct Params {
    pub limit: Option<u32>,
    pub batch_mode: Option<bool>,
    pub batch_size: Option<u32>,
    pub window_size: Option<u64>,
    pub mode: Option<String>,
    pub output_mode: Option<String>,
    pub file_path: Option<String>,
    pub remote_endpoint: Option<String>,
    pub onnx_model_path: Option<String>,
    pub python_script: Option<String>,
}

/// Mathematical image of `Params`: strings are abstracted to character
/// sequences so contracts can compare them against literals.
pub ghost struct ParamsView {
    pub limit: Option<u32>,
    pub batch_mode: Option<bool>,
    pub batch_size: Option<u32>,
    pub window_size: Option<u64>,
    pub mode: Option<Seq<char>>,
    pub output_mode: Option<Seq<char>>,
    pub file_path: Option<Seq<char>>,
    pub remote_endpoint: Option<Seq<char>>,
    pub onnx_model_path: Option<Seq<char>>,
    pub python_script: Option<Seq<char>>,
}

pub open spec fn view_of_opt_string(o: Option<String>) -> Option<Seq<char>> {
    match o {
        Some(s) => Some(s@),
        None => None,
    }
}

impl View for Params {
    type V = ParamsView;

    open spec fn view(&self) -> ParamsView {
        ParamsView {
            limit: self.limit,
            batch_mode: self.batch_mode,
            batch_size: self.batch_size,
            window_size: self.window_size,
            mode: view_of_opt_string(self.mode),
            output_mode: view_of_opt_string(self.output_mode),
            file_path: view_of_opt_string(self.file_path),
            remote_endpoint: view_of_opt_string(self.remote_endpoint),
            onnx_model_path: view_of_opt_string(self.onnx_model_path),
            python_script: view_of_opt_string(self.python_script),
        }
    }
}

impl ParamsView {
    /// The view of a parameter set with every field absent.
    pub open spec fn empty() -> ParamsView {
        ParamsView {
            limit: None,
            batch_mode: None,
            batch_size: None,
            window_size: None,
            mode: None,
            output_mode: None,
            file_path: None,
            remote_endpoint: None,
            onnx_model_path: None,
            python_script: None,
        }
    }
}

fn duplicate_opt_string(o: &Option<String>) -> (r: Option<String>)
    ensures
        view_of_opt_string(r) == view_of_opt_string(*o),
{
    match o {
        Some(s) => Some(s.clone()),
        None => None,
    }
}

impl Params {
    /// A parameter set with every field absent.
    pub fn new() -> (r: Params)
        ensures
            r@ == ParamsView::empty(),
    {
        Params {
            limit: None,
            batch_mode: None,
            batch_size: None,
            window_size: None,
            mode: None,
            output_mode: None,
            file_path: None,
            remote_endpoint: None,
            onnx_model_path: None,
            python_script: None,
        }
    }

    /// An independent copy with the same view.
    pub fn duplicate(&self) -> (r: Params)
        ensures
            r@ == self@,
    {
        Params {
            limit: self.limit,
            batch_mode: self.batch_mode,
            batch_size: self.batch_size,
            window_size: self.window_size,
            mode: duplicate_opt_string(&self.mode),
            output_mode: duplicate_opt_string(&self.output_mode),
            file_path: duplicate_opt_string(&self.file_path),
            remote_endpoint: duplicate_opt_string(&self.remote_endpoint),
            onnx_model_path: duplicate_opt_string(&self.onnx_model_path),
            python_script: duplicate_opt_string(&self.python_script),
        }
    }
}

/// One record of a message's trace: which step handled it, how long the
/// step took, and a snapshot of that step's parameters.
pub struct TraceStep {
    pub node_id: String,
    pub duration_micros: u64,
    pub params: Params,
}

pub ghost struct TraceStepView {
    pub node_id: Seq<char>,
    pub duration_micros: u64,
    pub params: ParamsView,
}

impl View for TraceStep {
    type V = TraceStepView;

    open spec fn view(&self) -> TraceStepView {
        TraceStepView {
            node_id: self.node_id@,
            duration_micros: self.duration_micros,
            params: self.params@,
        }
    }
}

impl TraceStep {
    /// Creates a new trace record with the given node id, duration and params.
    pub fn new(node_id: &str, duration_micros: u64, params: Params) -> (r: TraceStep)
        ensures
            r@.node_id == node_id@,
            r@.duration_micros == duration_micros,
            r@.params == params@,
    {
        TraceStep { node_id: node_id.to_owned(), duration_micros, params }
    }

    /// An independent copy with the same view.
    pub fn duplicate(&self) -> (r: TraceStep)
        ensures
            r@ == self@,
    {
        TraceStep {
            node_id: self.node_id.clone(),
            duration_micros: self.duration_micros,
            params: self.params.duplicate(),
        }
    }
}

/// The full trace of a message across the pipeline, in emission order.
pub struct Trace {
    pub steps: Vec<TraceStep>,
}

impl View for Trace {
    type V = Seq<TraceStepView>;

    open spec fn view(&self) -> Seq<TraceStepView> {
        Seq::new(self.steps@.len(), |i: int| self.steps@[i]@)
    }
}

impl Trace {
    /// An empty trace.
    pub fn new() -> (r: Trace)
        ensures
            r@ == Seq::<TraceStepView>::empty(),
    {
        let r = Trace { steps: Vec::new() };
        assert(r@ =~= Seq::<TraceStepView>::empty());
        r
    }

    /// Adds a new record to the trace.
    pub fn add_step(&mut self, step: TraceStep)
        ensures
            final(self)@ == old(self)@.push(step@),
    {
        let ghost prev = self@;
        self.steps.push(step);
        assert(self@ =~= prev.push(self.steps@[self.steps@.len() - 1]@));
    }

    /// Combines another trace with this one, appending its records.
    pub fn merge(&mut self, other: Trace)
        ensures
            final(self)@ == old(self)@ + other@,
    {
        let ghost prev = self@;
        let ghost rest = other@;
        let mut incoming = other.steps;
        let mut i: usize = 0;
        while i < incoming.len()
            invariant
                i <= incoming.len(),
                rest.len() == incoming.len(),
                forall|j: int| 0 <= j < incoming.len() ==> incoming@[j]@ == rest[j],
                self@ == prev + rest.subrange(0, i as int),
            decreases incoming.len() - i,
        {
            let ghost before = self@;
            let step = incoming[i].duplicate();
            self.steps.push(step);
            assert(self@ =~= before.push(rest[i as int]));
            assert(self@ =~= prev + rest.subrange(0, i as int + 1));
            i = i + 1;
        }
        assert(rest.subrange(0, rest.len() as int) =~= rest);
    }

    /// An independent copy with the same view.
    pub fn duplicate(&self) -> (r: Trace)
        ensures
            r@ == self@,
    {
        let mut steps: Vec<TraceStep> = Vec::new();
        let mut i: usize = 0;
        while i < self.steps.len()
            invariant
                i <= self.steps.len(),
                steps@.len() == i,
                forall|j: int| 0 <= j < i ==> steps@[j]@ == self@[j],
            decreases self.steps.len() - i,
        {
            steps.push(self.steps[i].duplicate());
            i = i + 1;
        }
        let r = Trace { steps };
        assert(r@ =~= self@);
        r
    }
}


/// The uniform contract every pipeline step offers: its declared name, the
/// output name it tags emissions with (empty for sinks), and its parameters.
pub trait Step {
    fn name(&self) -> &str;

    fn output_name(&self) -> &str;

    fn params(&self) -> &Params;
}

} // verus!
