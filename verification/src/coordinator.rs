use vstd::prelude::*;

use crate::config::{Config, ConfigView, StepConfigView};
use crate::messages::ProcessMessage;
use crate::steps::batch_pooler::{BatchPooler, PoolingMode};
use crate::steps::csv_reader::CsvReader;
use crate::steps::data_generator::{DataGenerator, SourceState};
use crate::steps::feature_processor::FeatureProcessor;
use crate::steps::http_output::{HttpOutput, SinkReply};
use crate::steps::ml_model::MLModel;
use crate::steps::printer::Printer;
use crate::steps::py_feature_processor::PyFeatureProcessor;
use crate::steps::step_join_point::{JoinMode, StepJoinPoint, StepJoinPointOutputMode};
use crate::validator::{valid, validate_config, ValidationError};

verus! {

/// One step instance owned by the coordinator, by kind.
pub enum StepActor {
    FeatureProcessor(FeatureProcessor),
    PyFeatureProcessor(PyFeatureProcessor),
    MLModel(MLModel),
    DataGenerator(DataGenerator),
    CsvReader(CsvReader),
    StepJoinPoint(StepJoinPoint),
    BatchPooler(BatchPooler),
    Printer(Printer),
    HttpOutput(HttpOutput),
    /// A declaration whose kind is unknown or unusable; messages routed to
    /// it are dropped, as they are for an actor that never started.
    Unknown,
}

pub ghost enum StepActorView {
    FeatureProcessor(crate::steps::feature_processor::FeatureProcessorView),
    PyFeatureProcessor(crate::steps::py_feature_processor::PyFeatureProcessorView),
    MLModel(crate::steps::ml_model::MLModelView),
    DataGenerator(crate::steps::data_generator::DataGeneratorView),
    CsvReader(crate::steps::csv_reader::CsvReaderView),
    StepJoinPoint(crate::steps::step_join_point::StepJoinPointView),
    BatchPooler(crate::steps::batch_pooler::BatchPoolerView),
    Printer(crate::steps::printer::PrinterView),
    HttpOutput { name: Seq<char>, input_name: Seq<char> },
    Unknown,
}

impl View for StepActor {
    type V = StepActorView;

    open spec fn view(&self) -> StepActorView {
        match self {
            StepActor::FeatureProcessor(s) => StepActorView::FeatureProcessor(s@),
            StepActor::PyFeatureProcessor(s) => StepActorView::PyFeatureProcessor(s@),
            StepActor::MLModel(s) => StepActorView::MLModel(s@),
            StepActor::DataGenerator(s) => StepActorView::DataGenerator(s@),
            StepActor::CsvReader(s) => StepActorView::CsvReader(s@),
            StepActor::StepJoinPoint(s) => StepActorView::StepJoinPoint(s@),
            StepActor::BatchPooler(s) => StepActorView::BatchPooler(s@),
            StepActor::Printer(s) => StepActorView::Printer(s@),
            StepActor::HttpOutput(s) => StepActorView::HttpOutput {
                name: s.name@,
                input_name: s.input_name@,
            },
            StepActor::Unknown => StepActorView::Unknown,
        }
    }
}

/// The dynamic state of a step instance is well formed.
pub open spec fn actor_wf(a: StepActor) -> bool {
    match a@ {
        StepActorView::StepJoinPoint(j) => j.wf(),
        StepActorView::BatchPooler(p) => p.wf(),
        _ => true,
    }
}

/// The first declared output of a step, or the empty name.
pub open spec fn first_output(s: StepConfigView) -> Seq<char> {
    if s.outputs.len() > 0 {
        s.outputs[0]
    } else {
        Seq::empty()
    }
}

/// The first declared input of a step, or the empty name.
pub open spec fn first_input(s: StepConfigView) -> Seq<char> {
    if s.inputs.len() > 0 {
        s.inputs[0]
    } else {
        Seq::empty()
    }
}

/// The instance the coordinator creates for a declaration, in its initial
/// state. A declaration that cannot be instantiated (unknown kind, missing
/// output, a request/response sink without a registry) yields `Unknown`.
pub open spec fn actor_for(decl: StepConfigView, has_registry: bool) -> StepActorView {
    if decl.node_type == "FeatureProcessor"@ && decl.outputs.len() > 0 {
        StepActorView::FeatureProcessor(
            crate::steps::feature_processor::FeatureProcessorView {
                name: decl.name,
                output_name: decl.outputs[0],
                params: decl.params,
            },
        )
    } else if decl.node_type == "PyFeatureProcessor"@ && decl.outputs.len() > 0 {
        StepActorView::PyFeatureProcessor(
            crate::steps::py_feature_processor::PyFeatureProcessorView {
                name: decl.name,
                output_name: decl.outputs[0],
                python_script: decl.params.python_script,
                params: decl.params,
            },
        )
    } else if decl.node_type == "MLModel"@ && decl.outputs.len() > 0 {
        StepActorView::MLModel(
            crate::steps::ml_model::MLModelView {
                name: decl.name,
                output_name: decl.outputs[0],
                remote_endpoint: decl.params.remote_endpoint,
                onnx_model_path: decl.params.onnx_model_path,
                params: decl.params,
            },
        )
    } else if decl.node_type == "DataGenerator"@ && decl.outputs.len() > 0 {
        StepActorView::DataGenerator(
            crate::steps::data_generator::DataGeneratorView {
                name: decl.name,
                output_name: decl.outputs[0],
                interval_secs: 1,
                state: SourceState::initial(decl.params),
                params: decl.params,
            },
        )
    } else if decl.node_type == "CsvReader"@ && decl.outputs.len() > 0 {
        StepActorView::CsvReader(
            crate::steps::csv_reader::CsvReaderView {
                name: decl.name,
                output_name: decl.outputs[0],
                file_path: match decl.params.file_path {
                    Some(p) => p,
                    None => Seq::empty(),
                },
                interval_secs: 1,
                state: SourceState::initial(decl.params),
                params: decl.params,
            },
        )
    } else if decl.node_type == "StepJoinPoint"@ && decl.outputs.len() > 0 {
        StepActorView::StepJoinPoint(
            crate::steps::step_join_point::StepJoinPointView {
                name: decl.name,
                output_name: decl.outputs[0],
                expected: decl.inputs,
                mode: if decl.params.mode == Some("OR"@) {
                    JoinMode::OR
                } else {
                    JoinMode::AND
                },
                output_mode: if decl.params.output_mode == Some("NEST"@) {
                    StepJoinPointOutputMode::Nest
                } else {
                    StepJoinPointOutputMode::Flatten
                },
                pending: Seq::empty(),
                completed: Seq::empty(),
                params: decl.params,
            },
        )
    } else if decl.node_type == "BatchPooler"@ && decl.outputs.len() > 0 {
        StepActorView::BatchPooler(
            crate::steps::batch_pooler::BatchPoolerView {
                name: decl.name,
                output_name: decl.outputs[0],
                mode: match decl.params.window_size {
                    Some(size) => PoolingMode::Window { size: size as usize },
                    None => PoolingMode::BatchId,
                },
                window: Seq::empty(),
                batches: Seq::empty(),
                params: decl.params,
            },
        )
    } else if decl.node_type == "Printer"@ {
        StepActorView::Printer(
            crate::steps::printer::PrinterView {
                name: decl.name,
                output_name: Seq::empty(),
                received: Seq::empty(),
                params: decl.params,
            },
        )
    } else if decl.node_type == "HttpOutput"@ && has_registry {
        StepActorView::HttpOutput { name: decl.name, input_name: first_input(decl) }
    } else {
        StepActorView::Unknown
    }
}

// ---------------------------------------------------------------------------
// The routing table: output name to the steps that consume it, with one
// entry per declared consumption, in declaration order.
// ---------------------------------------------------------------------------

/// The indices contributed by the first `m` inputs of step `i`.
pub open spec fn step_consumes_upto(s: StepConfigView, nm: Seq<char>, i: int, m: int) -> Seq<int>
    decreases m,
{
    if m <= 0 {
        Seq::empty()
    } else {
        step_consumes_upto(s, nm, i, m - 1) + if s.inputs[m - 1] == nm {
            seq![i]
        } else {
            Seq::empty()
        }
    }
}

/// The consumers of output `nm` among the first `n` steps.
pub open spec fn downstream_upto(c: ConfigView, nm: Seq<char>, n: int) -> Seq<int>
    decreases n,
{
    if n <= 0 {
        Seq::empty()
    } else {
        downstream_upto(c, nm, n - 1) + step_consumes_upto(
            c.steps[n - 1],
            nm,
            n - 1,
            c.steps[n - 1].inputs.len() as int,
        )
    }
}

/// All consumers of output `nm`, one entry per declared consumption, in
/// declaration order. This is where a message tagged `nm` is delivered.
pub open spec fn downstream(c: ConfigView, nm: Seq<char>) -> Seq<int> {
    downstream_upto(c, nm, c.steps.len() as int)
}

/// The view of one routing entry.
pub open spec fn adj_entry_view(e: (String, Vec<usize>)) -> (Seq<char>, Seq<int>) {
    (e.0@, Seq::new(e.1@.len(), |k: int| e.1@[k] as int))
}

/// Some routing entry is keyed by `nm`.
pub open spec fn adj_has_key(adj: Seq<(String, Vec<usize>)>, nm: Seq<char>) -> bool {
    exists|e: int| 0 <= e < adj.len() && (#[trigger] adj[e]).0@ == nm
}

/// The routing table is exactly the downstream relation of the
/// configuration: unique keys, each carrying its consumers, and a key for
/// every consumed name.
pub open spec fn adjacency_wf(adj: Seq<(String, Vec<usize>)>, c: ConfigView) -> bool {
    &&& forall|e: int, f: int| 0 <= e < f < adj.len() ==> adj[e].0@ != adj[f].0@
    &&& forall|e: int|
        0 <= e < adj.len() ==> adj_entry_view(#[trigger] adj[e]).1 == downstream(c, adj[e].0@)
    &&& forall|ii: int, jj: int|
        0 <= ii < c.steps.len() && 0 <= jj < c.steps[ii].inputs.len() ==> adj_has_key(
            adj,
            #[trigger] c.steps[ii].inputs[jj],
        )
}

/// No step before `n` consumes `nm`, so it has no consumers there.
proof fn lemma_downstream_upto_empty(c: ConfigView, nm: Seq<char>, n: int)
    requires
        forall|ii: int, jj: int|
            0 <= ii < n && 0 <= jj < c.steps[ii].inputs.len() ==> c.steps[ii].inputs[jj] != nm,
        n <= c.steps.len(),
    ensures
        downstream_upto(c, nm, n) == Seq::<int>::empty(),
    decreases n,
{
    if n > 0 {
        lemma_downstream_upto_empty(c, nm, n - 1);
        lemma_step_consumes_empty(c.steps[n - 1], nm, n - 1, c.steps[n - 1].inputs.len() as int);
        assert(downstream_upto(c, nm, n) =~= Seq::<int>::empty());
    }
}

proof fn lemma_step_consumes_empty(s: StepConfigView, nm: Seq<char>, i: int, m: int)
    requires
        forall|jj: int| 0 <= jj < m ==> s.inputs[jj] != nm,
        m <= s.inputs.len(),
    ensures
        step_consumes_upto(s, nm, i, m) == Seq::<int>::empty(),
    decreases m,
{
    if m > 0 {
        lemma_step_consumes_empty(s, nm, i, m - 1);
        assert(step_consumes_upto(s, nm, i, m) =~= Seq::<int>::empty());
    }
}

/// Every consumer index is a step index.
proof fn lemma_downstream_upto_range(c: ConfigView, nm: Seq<char>, n: int)
    requires
        n <= c.steps.len(),
    ensures
        forall|k: int|
            0 <= k < downstream_upto(c, nm, n).len() ==> 0 <= #[trigger] downstream_upto(
                c,
                nm,
                n,
            )[k] < n,
    decreases n,
{
    if n > 0 {
        lemma_downstream_upto_range(c, nm, n - 1);
        lemma_step_consumes_range(c.steps[n - 1], nm, n - 1, c.steps[n - 1].inputs.len() as int);
        let a = downstream_upto(c, nm, n - 1);
        let b = step_consumes_upto(c.steps[n - 1], nm, n - 1, c.steps[n - 1].inputs.len() as int);
        let w = downstream_upto(c, nm, n);
        assert(w == a + b);
        assert forall|k: int| 0 <= k < w.len() implies 0 <= #[trigger] w[k] < n by {
            if k < a.len() {
                assert(w[k] == a[k]);
            } else {
                assert(w[k] == b[k - a.len()]);
            }
        }
    }
}

proof fn lemma_step_consumes_range(s: StepConfigView, nm: Seq<char>, i: int, m: int)
    ensures
        forall|k: int|
            0 <= k < step_consumes_upto(s, nm, i, m).len() ==> #[trigger] step_consumes_upto(
                s,
                nm,
                i,
                m,
            )[k] == i,
    decreases m,
{
    if m > 0 {
        lemma_step_consumes_range(s, nm, i, m - 1);
        let a = step_consumes_upto(s, nm, i, m - 1);
        let w = step_consumes_upto(s, nm, i, m);
        assert forall|k: int| 0 <= k < w.len() implies #[trigger] w[k] == i by {
            if k < a.len() {
                assert(w[k] == a[k]);
            }
        }
    }
}

/// Manages the DAG: owns one instance per declaration and routes value
/// messages from an output name to every step that consumes it.
pub struct Coordinator {
    /// One instance per declaration, in declaration order.
    pub actors: Vec<StepActor>,
    /// Routing table: output name to consuming step indices.
    pub adjacency: Vec<(String, Vec<usize>)>,
    /// The validated configuration this coordinator was built from.
    pub config_view: Ghost<ConfigView>,
}

/// What one delivery did.
pub enum Effect {
    /// The step emitted this message; it re-enters the coordinator.
    Emitted(ProcessMessage),
    /// A transform step needs its numeric work done outside: hand the
    /// returned message and the computed data to the step's own `handle`.
    NeedsData(ProcessMessage),
    /// The step consumed (buffered or recorded) the message.
    Consumed,
    /// The step dropped the message.
    Dropped,
    /// The request/response sink answered (or tried to).
    Replied(SinkReply),
}

impl Coordinator {
    /// The coordinator's invariant: one actor per declaration, each with a
    /// well-formed state, and a routing table that is exactly the
    /// configuration's downstream relation.
    pub open spec fn wf(self) -> bool {
        &&& self.actors@.len() == self.config_view@.steps.len()
        &&& adjacency_wf(self.adjacency@, self.config_view@)
        &&& forall|i: int| 0 <= i < self.actors@.len() ==> actor_wf(#[trigger] self.actors@[i])
    }

    /// The consumers of the output name `node_id`: the step indices, in
    /// declaration order with one entry per declared consumption, that a
    /// message tagged `node_id` is handed to.
    pub fn route(&self, node_id: &String) -> (r: Vec<usize>)
        requires
            self.wf(),
        ensures
            Seq::new(r@.len(), |k: int| r@[k] as int) == downstream(self.config_view@, node_id@),
            forall|k: int| 0 <= k < r@.len() ==> r@[k] < self.actors@.len(),
    {
        let ghost c = self.config_view@;
        let mut e: usize = 0;
        while e < self.adjacency.len()
            invariant
                self.wf(),
                c == self.config_view@,
                e <= self.adjacency@.len(),
                forall|ee: int| 0 <= ee < e ==> self.adjacency@[ee].0@ != node_id@,
            decreases self.adjacency.len() - e,
        {
            if self.adjacency[e].0 == *node_id {
                let src = &self.adjacency[e].1;
                let mut r: Vec<usize> = Vec::new();
                let mut k: usize = 0;
                while k < src.len()
                    invariant
                        self.wf(),
                        c == self.config_view@,
                        e < self.adjacency@.len(),
                        src == &self.adjacency@[e as int].1,
                        k <= src@.len(),
                        r@.len() == k,
                        forall|kk: int| 0 <= kk < k ==> r@[kk] == src@[kk],
                    decreases src.len() - k,
                {
                    r.push(src[k]);
                    k = k + 1;
                }
                proof {
                    assert(adj_entry_view(self.adjacency@[e as int]).1 == downstream(c, node_id@));
                    assert(Seq::new(r@.len(), |kk: int| r@[kk] as int) =~= downstream(
                        c,
                        node_id@,
                    ));
                    lemma_downstream_upto_range(c, node_id@, c.steps.len() as int);
                    assert forall|kk: int| 0 <= kk < r@.len() implies r@[kk]
                        < self.actors@.len() by {
                        assert(downstream(c, node_id@)[kk] == r@[kk] as int);
                    }
                }
                return r;
            }
            e = e + 1;
        }
        // No entry: nothing consumes this name (a dead output).
        let r: Vec<usize> = Vec::new();
        proof {
            assert forall|ii: int, jj: int|
                0 <= ii < c.steps.len() && 0 <= jj < c.steps[ii].inputs.len() implies c.steps[ii].inputs[jj]
                != node_id@ by {
                if c.steps[ii].inputs[jj] == node_id@ {
                    assert(adj_has_key(self.adjacency@, c.steps[ii].inputs[jj]));
                    let ee = choose|ee: int|
                        0 <= ee < self.adjacency@.len() && (#[trigger] self.adjacency@[ee]).0@
                            == c.steps[ii].inputs[jj];
                    assert(self.adjacency@[ee].0@ != node_id@);
                }
            }
            lemma_downstream_upto_empty(c, node_id@, c.steps.len() as int);
            assert(Seq::new(r@.len(), |kk: int| r@[kk] as int) =~= downstream(c, node_id@));
        }
        r
    }

    /// Hands one message to the step at index `i` and reports what the
    /// step did with it. Stateful steps move by their transition; transform
    /// steps hand the message back for the embedder's numeric work; sources
    /// ignore incoming messages; the unknown step drops them.
    pub fn handle_at(&mut self, i: usize, msg: ProcessMessage) -> (r: Effect)
        requires
            old(self).wf(),
            i < old(self).actors@.len(),
        ensures
            final(self).wf(),
            final(self).adjacency == old(self).adjacency,
            final(self).config_view == old(self).config_view,
            final(self).actors@.len() == old(self).actors@.len(),
            forall|k: int|
                0 <= k < old(self).actors@.len() && k != i ==> final(self).actors@[k] == old(
                    self,
                ).actors@[k],
            match old(self).actors@[i as int] {
                StepActor::StepJoinPoint(j) => {
                    let (j2, out) = j@.transition(msg@);
                    &&& final(self).actors@[i as int]@ == StepActorView::StepJoinPoint(j2)
                    &&& match out {
                        Some(o) => r matches Effect::Emitted(e) && e@ == o,
                        None => r is Consumed,
                    }
                },
                StepActor::BatchPooler(p) => {
                    let (p2, out) = p@.transition(msg@);
                    &&& final(self).actors@[i as int]@ == StepActorView::BatchPooler(p2)
                    &&& match out {
                        Some(o) => r matches Effect::Emitted(e) && e@ == o,
                        None => r is Consumed,
                    }
                },
                StepActor::Printer(p) => {
                    &&& final(self).actors@[i as int]@ == StepActorView::Printer(
                        crate::steps::printer::PrinterView {
                            received: p@.received.push(p@.recorded(msg@)),
                            ..p@
                        },
                    )
                    &&& r is Consumed
                },
                StepActor::FeatureProcessor(_) => {
                    &&& final(self).actors@[i as int] == old(self).actors@[i as int]
                    &&& r matches Effect::NeedsData(m) && m@ == msg@
                },
                StepActor::PyFeatureProcessor(_) => {
                    &&& final(self).actors@[i as int] == old(self).actors@[i as int]
                    &&& r matches Effect::NeedsData(m) && m@ == msg@
                },
                StepActor::MLModel(_) => {
                    &&& final(self).actors@[i as int] == old(self).actors@[i as int]
                    &&& if msg@.data.len() == 0 {
                        r is Dropped
                    } else {
                        r matches Effect::NeedsData(m) && m@ == msg@
                    }
                },
                StepActor::DataGenerator(_) => {
                    &&& final(self).actors@[i as int] == old(self).actors@[i as int]
                    &&& r is Consumed
                },
                StepActor::CsvReader(_) => {
                    &&& final(self).actors@[i as int] == old(self).actors@[i as int]
                    &&& r is Consumed
                },
                StepActor::HttpOutput(_) => {
                    &&& final(self).actors@[i as int] == old(self).actors@[i as int]
                    &&& r matches Effect::Replied(reply) && (reply matches SinkReply::ReceiverGone(
                        v,
                    ) ==> v@ == msg@.data)
                },
                StepActor::Unknown => {
                    &&& final(self).actors@[i as int] == old(self).actors@[i as int]
                    &&& r is Dropped
                },
            },
    {
        let actor = self.actors.remove(i);
        let (actor2, effect): (StepActor, Effect) = match actor {
            StepActor::StepJoinPoint(mut j) => {
                let out = j.handle(msg);
                let eff = match out {
                    Some(o) => Effect::Emitted(o),
                    None => Effect::Consumed,
                };
                (StepActor::StepJoinPoint(j), eff)
            },
            StepActor::BatchPooler(mut p) => {
                let out = p.handle(msg);
                let eff = match out {
                    Some(o) => Effect::Emitted(o),
                    None => Effect::Consumed,
                };
                (StepActor::BatchPooler(p), eff)
            },
            StepActor::Printer(mut p) => {
                p.handle(msg);
                (StepActor::Printer(p), Effect::Consumed)
            },
            StepActor::FeatureProcessor(f) => {
                (StepActor::FeatureProcessor(f), Effect::NeedsData(msg))
            },
            StepActor::PyFeatureProcessor(f) => {
                (StepActor::PyFeatureProcessor(f), Effect::NeedsData(msg))
            },
            StepActor::MLModel(mdl) => {
                let eff = if mdl.accepts(&msg) {
                    Effect::NeedsData(msg)
                } else {
                    Effect::Dropped
                };
                (StepActor::MLModel(mdl), eff)
            },
            StepActor::DataGenerator(g) => (StepActor::DataGenerator(g), Effect::Consumed),
            StepActor::CsvReader(cr) => (StepActor::CsvReader(cr), Effect::Consumed),
            StepActor::HttpOutput(h) => {
                let reply = h.handle(&msg);
                (StepActor::HttpOutput(h), Effect::Replied(reply))
            },
            StepActor::Unknown => (StepActor::Unknown, Effect::Dropped),
        };
        self.actors.insert(i, actor2);
        proof {
            assert(self.actors@ =~= old(self).actors@.update(i as int, self.actors@[i as int]));
        }
        effect
    }
}


/// An independent copy of a list of names, with the same views.
fn dup_names(v: &Vec<String>) -> (r: Vec<String>)
    ensures
        r@.len() == v@.len(),
        forall|k: int| 0 <= k < v@.len() ==> r@[k]@ == v@[k]@,
{
    let mut r: Vec<String> = Vec::new();
    let mut i: usize = 0;
    while i < v.len()
        invariant
            i <= v.len(),
            r@.len() == i,
            forall|k: int| 0 <= k < i ==> r@[k]@ == v@[k]@,
        decreases v.len() - i,
    {
        r.push(v[i].clone());
        i = i + 1;
    }
    r
}

/// Builds the instance for one declaration, in its initial state.
fn create_step_actor(
    step: &crate::config::StepConfig,
    sender_map: &Option<
        std::sync::Arc<dashmap::DashMap<u64, tokio::sync::oneshot::Sender<Vec<u64>>>>,
    >,
) -> (r: StepActor)
    ensures
        r@ == actor_for(step@, sender_map is Some),
        actor_wf(r),
{
    let ghost decl = step@;
    let has_output = step.outputs.len() > 0;
    if crate::validator::is_lit(&step.node_type, "FeatureProcessor") && has_output {
        let a = FeatureProcessor::new_from_params(
            step.name.clone(),
            step.outputs[0].clone(),
            step.params.duplicate(),
        );
        StepActor::FeatureProcessor(a)
    } else if crate::validator::is_lit(&step.node_type, "PyFeatureProcessor") && has_output {
        let a = PyFeatureProcessor::new_from_params(
            step.name.clone(),
            step.outputs[0].clone(),
            step.params.duplicate(),
        );
        StepActor::PyFeatureProcessor(a)
    } else if crate::validator::is_lit(&step.node_type, "MLModel") && has_output {
        let a = MLModel::new_from_params(
            step.name.clone(),
            step.outputs[0].clone(),
            step.params.duplicate(),
        );
        StepActor::MLModel(a)
    } else if crate::validator::is_lit(&step.node_type, "DataGenerator") && has_output {
        let a = DataGenerator::new_from_params(
            step.name.clone(),
            step.outputs[0].clone(),
            step.params.duplicate(),
        );
        StepActor::DataGenerator(a)
    } else if crate::validator::is_lit(&step.node_type, "CsvReader") && has_output {
        let a = CsvReader::new_from_params(
            step.name.clone(),
            step.outputs[0].clone(),
            step.params.duplicate(),
        );
        StepActor::CsvReader(a)
    } else if crate::validator::is_lit(&step.node_type, "StepJoinPoint") && has_output {
        let expected = dup_names(&step.inputs);
        let a = StepJoinPoint::new_from_params(
            step.name.clone(),
            step.outputs[0].clone(),
            expected,
            step.params.duplicate(),
        );
        proof {
            assert(a@.expected =~= decl.inputs);
        }
        StepActor::StepJoinPoint(a)
    } else if crate::validator::is_lit(&step.node_type, "BatchPooler") && has_output {
        let a = BatchPooler::new_from_params(
            step.name.clone(),
            step.outputs[0].clone(),
            step.params.duplicate(),
        );
        StepActor::BatchPooler(a)
    } else if crate::validator::is_lit(&step.node_type, "Printer") {
        let a = Printer::new_from_params(step.name.clone(), String::new(), step.params.duplicate());
        StepActor::Printer(a)
    } else if crate::validator::is_lit(&step.node_type, "HttpOutput") {
        match sender_map {
            Some(map) => {
                let input_name = if step.inputs.len() > 0 {
                    step.inputs[0].clone()
                } else {
                    String::new()
                };
                let a = HttpOutput::new(
                    step.name.clone(),
                    input_name,
                    crate::steps::http_output::clone_registry(map),
                );
                StepActor::HttpOutput(a)
            },
            None => StepActor::Unknown,
        }
    } else {
        StepActor::Unknown
    }
}

/// Finds the routing entry for `name`, if any.
fn find_adj(adjacency: &Vec<(String, Vec<usize>)>, name: &String) -> (r: Option<usize>)
    ensures
        match r {
            Some(e) => e < adjacency@.len() && adjacency@[e as int].0@ == name@,
            None => forall|ee: int| 0 <= ee < adjacency@.len() ==> adjacency@[ee].0@ != name@,
        },
{
    let mut e: usize = 0;
    while e < adjacency.len()
        invariant
            e <= adjacency.len(),
            forall|ee: int| 0 <= ee < e ==> adjacency@[ee].0@ != name@,
        decreases adjacency.len() - e,
    {
        if adjacency[e].0 == *name {
            return Some(e);
        }
        e = e + 1;
    }
    None
}

impl Coordinator {
    /// Validates the configuration and, on success, instantiates one step
    /// per declaration in declaration order and derives the routing table.
    /// On failure the validator's full error list comes back and nothing is
    /// instantiated.
    pub fn new(
        config: &Config,
        sender_map: Option<
            std::sync::Arc<dashmap::DashMap<u64, tokio::sync::oneshot::Sender<Vec<u64>>>>,
        >,
    ) -> (r: Result<Coordinator, Vec<ValidationError>>)
        ensures
            r is Ok <==> valid(config@),
            match r {
                Ok(coord) => {
                    &&& coord.wf()
                    &&& coord.config_view@ == config@
                    &&& coord.actors@.len() == config@.steps.len()
                    &&& forall|i: int|
                        0 <= i < config@.steps.len() ==> coord.actors@[i]@ == actor_for(
                            config@.steps[i],
                            sender_map is Some,
                        )
                },
                Err(es) => es@.len() > 0 && crate::validator::all_real(config@, es@),
            },
    {
        let ghost c = config@;
        match validate_config(config) {
            Err(es) => {
                return Err(es);
            },
            Ok(()) => {},
        }

        // Instantiate the steps in declaration order.
        let ghost has_map = sender_map is Some;
        let mut actors: Vec<StepActor> = Vec::new();
        let mut i: usize = 0;
        while i < config.steps.len()
            invariant
                c == config@,
                has_map == (sender_map is Some),
                i <= config.steps@.len(),
                actors@.len() == i,
                forall|k: int|
                    0 <= k < i ==> (#[trigger] actors@[k])@ == actor_for(c.steps[k], has_map),
                forall|k: int| 0 <= k < i ==> actor_wf(#[trigger] actors@[k]),
            decreases config.steps.len() - i,
        {
            let a = create_step_actor(&config.steps[i], &sender_map);
            actors.push(a);
            i = i + 1;
        }

        // Derive the routing table: every declared consumption, keyed by the
        // consumed name, in declaration order.
        let mut adjacency: Vec<(String, Vec<usize>)> = Vec::new();
        let mut i2: usize = 0;
        while i2 < config.steps.len()
            invariant
                c == config@,
                i2 <= config.steps@.len(),
                forall|e: int, f: int|
                    0 <= e < f < adjacency@.len() ==> adjacency@[e].0@ != adjacency@[f].0@,
                forall|e: int|
                    0 <= e < adjacency@.len() ==> adj_entry_view(#[trigger] adjacency@[e]).1
                        == downstream_upto(c, adjacency@[e].0@, i2 as int),
                forall|ii: int, jj: int|
                    0 <= ii < i2 && 0 <= jj < c.steps[ii].inputs.len() ==> adj_has_key(
                        adjacency@,
                        #[trigger] c.steps[ii].inputs[jj],
                    ),
            decreases config.steps.len() - i2,
        {
            let step = &config.steps[i2];
            let mut j: usize = 0;
            while j < step.inputs.len()
                invariant
                    c == config@,
                    i2 < config.steps@.len(),
                    step == &config.steps[i2 as int],
                    j <= step.inputs@.len(),
                    forall|e: int, f: int|
                        0 <= e < f < adjacency@.len() ==> adjacency@[e].0@ != adjacency@[f].0@,
                    forall|e: int|
                        0 <= e < adjacency@.len() ==> adj_entry_view(#[trigger] adjacency@[e]).1
                            == downstream_upto(c, adjacency@[e].0@, i2 as int)
                            + step_consumes_upto(
                            c.steps[i2 as int],
                            adjacency@[e].0@,
                            i2 as int,
                            j as int,
                        ),
                    forall|ii: int, jj: int|
                        (0 <= ii < i2 && 0 <= jj < c.steps[ii].inputs.len()) || (ii == i2 && 0 <= jj
                            < j) ==> adj_has_key(adjacency@, #[trigger] c.steps[ii].inputs[jj]),
                decreases step.inputs.len() - j,
            {
                let ghost before = adjacency@;
                let nm = &step.inputs[j];
                assert(nm@ == c.steps[i2 as int].inputs[j as int]);
                match find_adj(&adjacency, nm) {
                    Some(e) => {
                        let mut entry = adjacency.remove(e);
                        let ghost old_entry = before[e as int];
                        entry.1.push(i2);
                        adjacency.insert(e, entry);
                        proof {
                            assert(adjacency@ =~= before.update(
                                e as int,
                                adjacency@[e as int],
                            ));
                            assert(adj_entry_view(adjacency@[e as int]).1 =~= adj_entry_view(
                                old_entry,
                            ).1 + seq![i2 as int]);
                            lemma_adjacency_fill_step(
                                c,
                                before,
                                adjacency@,
                                i2 as int,
                                j as int,
                                e as int,
                            );
                            assert forall|ii: int, jj: int|
                                (0 <= ii < i2 && 0 <= jj < c.steps[ii].inputs.len()) || (ii
                                    == i2 && 0 <= jj < j + 1) implies adj_has_key(
                                adjacency@,
                                #[trigger] c.steps[ii].inputs[jj],
                            ) by {
                                if ii == i2 as int && jj == j as int {
                                    assert(adjacency@[e as int].0@ == c.steps[ii].inputs[jj]);
                                } else {
                                    assert(adj_has_key(before, c.steps[ii].inputs[jj]));
                                    let e0 = choose|e0: int|
                                        0 <= e0 < before.len() && (#[trigger] before[e0]).0@
                                            == c.steps[ii].inputs[jj];
                                    assert(adjacency@[e0].0@ == before[e0].0@);
                                }
                            }
                        }
                    },
                    None => {
                        let mut consumers: Vec<usize> = Vec::new();
                        consumers.push(i2);
                        adjacency.push((nm.clone(), consumers));
                        proof {
                            assert(adjacency@ =~= before.push(adjacency@[before.len() as int]));
                            assert(adjacency@[before.len() as int].0@ == c.steps[i2 as int].inputs[j as int]);
                            assert(adj_entry_view(adjacency@[before.len() as int]).1 =~= seq![
                                i2 as int,
                            ]);
                            lemma_adjacency_new_entry(c, before, adjacency@, i2 as int, j as int);
                            assert forall|ii: int, jj: int|
                                (0 <= ii < i2 && 0 <= jj < c.steps[ii].inputs.len()) || (ii
                                    == i2 && 0 <= jj < j + 1) implies adj_has_key(
                                adjacency@,
                                #[trigger] c.steps[ii].inputs[jj],
                            ) by {
                                if ii == i2 as int && jj == j as int {
                                    assert(adjacency@[before.len() as int].0@
                                        == c.steps[ii].inputs[jj]);
                                } else {
                                    assert(adj_has_key(before, c.steps[ii].inputs[jj]));
                                    let e0 = choose|e0: int|
                                        0 <= e0 < before.len() && (#[trigger] before[e0]).0@
                                            == c.steps[ii].inputs[jj];
                                    assert(adjacency@[e0].0@ == before[e0].0@);
                                }
                            }
                        }
                    },
                }
                j = j + 1;
            }
            proof {
                assert forall|e: int| 0 <= e < adjacency@.len() implies adj_entry_view(
                    #[trigger] adjacency@[e],
                ).1 == downstream_upto(c, adjacency@[e].0@, i2 as int + 1) by {
                    assert(downstream_upto(c, adjacency@[e].0@, i2 as int + 1) == downstream_upto(
                        c,
                        adjacency@[e].0@,
                        i2 as int,
                    ) + step_consumes_upto(
                        c.steps[i2 as int],
                        adjacency@[e].0@,
                        i2 as int,
                        c.steps[i2 as int].inputs.len() as int,
                    ));
                }
            }
            i2 = i2 + 1;
        }

        let coord = Coordinator { actors, adjacency, config_view: Ghost(config@) };
        proof {
            assert(adjacency_wf(coord.adjacency@, c));
            assert(coord.wf());
        }
        Ok(coord)
    }
}

/// Appending the consumer `i` under input `j`'s name extends that entry and
/// leaves every other entry's meaning unchanged.
proof fn lemma_adjacency_fill_step(
    c: ConfigView,
    before: Seq<(String, Vec<usize>)>,
    after: Seq<(String, Vec<usize>)>,
    i: int,
    j: int,
    e: int,
)
    requires
        0 <= i < c.steps.len(),
        0 <= j < c.steps[i].inputs.len(),
        0 <= e < before.len(),
        after.len() == before.len(),
        forall|f: int| 0 <= f < before.len() && f != e ==> after[f] == before[f],
        after[e].0@ == before[e].0@,
        before[e].0@ == c.steps[i].inputs[j],
        adj_entry_view(after[e]).1 == adj_entry_view(before[e]).1 + seq![i],
        forall|ee: int, ff: int| 0 <= ee < ff < before.len() ==> before[ee].0@ != before[ff].0@,
        forall|ee: int|
            0 <= ee < before.len() ==> adj_entry_view(#[trigger] before[ee]).1 == downstream_upto(
                c,
                before[ee].0@,
                i,
            ) + step_consumes_upto(c.steps[i], before[ee].0@, i, j),
    ensures
        forall|ee: int, ff: int| 0 <= ee < ff < after.len() ==> after[ee].0@ != after[ff].0@,
        forall|ee: int|
            0 <= ee < after.len() ==> adj_entry_view(#[trigger] after[ee]).1 == downstream_upto(
                c,
                after[ee].0@,
                i,
            ) + step_consumes_upto(c.steps[i], after[ee].0@, i, j + 1),
{
    assert forall|ee: int, ff: int| 0 <= ee < ff < after.len() implies after[ee].0@
        != after[ff].0@ by {
        assert(after[ee].0@ == before[ee].0@);
        assert(after[ff].0@ == before[ff].0@);
    }
    assert forall|ee: int| 0 <= ee < after.len() implies adj_entry_view(#[trigger] after[ee]).1
        == downstream_upto(c, after[ee].0@, i) + step_consumes_upto(
        c.steps[i],
        after[ee].0@,
        i,
        j + 1,
    ) by {
        let nm = after[ee].0@;
        assert(step_consumes_upto(c.steps[i], nm, i, j + 1) == step_consumes_upto(
            c.steps[i],
            nm,
            i,
            j,
        ) + (if c.steps[i].inputs[j] == nm {
            seq![i]
        } else {
            Seq::<int>::empty()
        }));
        if ee == e {
            assert(c.steps[i].inputs[j] == nm);
            assert(adj_entry_view(after[ee]).1 =~= downstream_upto(c, nm, i)
                + step_consumes_upto(c.steps[i], nm, i, j + 1));
        } else {
            assert(after[ee] == before[ee]);
            // Unique keys: this entry's name is not input j.
            if ee < e {
                assert(before[ee].0@ != before[e].0@);
            } else {
                assert(before[e].0@ != before[ee].0@);
            }
            assert(c.steps[i].inputs[j] != nm);
            assert(adj_entry_view(after[ee]).1 =~= downstream_upto(c, nm, i)
                + step_consumes_upto(c.steps[i], nm, i, j + 1));
        }
    }
}

/// Opening a fresh entry for a name seen for the first time gives it
/// exactly the one consumer, and leaves the other entries' meaning
/// unchanged.
proof fn lemma_adjacency_new_entry(
    c: ConfigView,
    before: Seq<(String, Vec<usize>)>,
    after: Seq<(String, Vec<usize>)>,
    i: int,
    j: int,
)
    requires
        0 <= i < c.steps.len(),
        0 <= j < c.steps[i].inputs.len(),
        after.len() == before.len() + 1,
        forall|f: int| 0 <= f < before.len() ==> after[f] == before[f],
        after[before.len() as int].0@ == c.steps[i].inputs[j],
        adj_entry_view(after[before.len() as int]).1 == seq![i],
        forall|ee: int| 0 <= ee < before.len() ==> before[ee].0@ != c.steps[i].inputs[j],
        forall|ee: int, ff: int| 0 <= ee < ff < before.len() ==> before[ee].0@ != before[ff].0@,
        forall|ee: int|
            0 <= ee < before.len() ==> adj_entry_view(#[trigger] before[ee]).1 == downstream_upto(
                c,
                before[ee].0@,
                i,
            ) + step_consumes_upto(c.steps[i], before[ee].0@, i, j),
        // Until now nothing consumed this name: the covered consumptions all
        // have an entry, and no entry has this name.
        forall|ii: int, jj: int|
            (0 <= ii < i && 0 <= jj < c.steps[ii].inputs.len()) || (ii == i && 0 <= jj < j)
                ==> adj_has_key(before, #[trigger] c.steps[ii].inputs[jj]),
    ensures
        forall|ee: int, ff: int| 0 <= ee < ff < after.len() ==> after[ee].0@ != after[ff].0@,
        forall|ee: int|
            0 <= ee < after.len() ==> adj_entry_view(#[trigger] after[ee]).1 == downstream_upto(
                c,
                after[ee].0@,
                i,
            ) + step_consumes_upto(c.steps[i], after[ee].0@, i, j + 1),
{
    let nm0 = c.steps[i].inputs[j];
    assert forall|ee: int, ff: int| 0 <= ee < ff < after.len() implies after[ee].0@
        != after[ff].0@ by {
        if ff == after.len() - 1 {
            assert(after[ee] == before[ee]);
        } else {
            assert(after[ee] == before[ee]);
            assert(after[ff] == before[ff]);
        }
    }
    // The fresh name has no earlier consumers.
    assert forall|ii: int, jj: int|
        (0 <= ii < i && 0 <= jj < c.steps[ii].inputs.len()) || (ii == i && 0 <= jj < j) implies
        #[trigger] c.steps[ii].inputs[jj] != nm0 by {
        if c.steps[ii].inputs[jj] == nm0 {
            assert(adj_has_key(before, c.steps[ii].inputs[jj]));
            let e = choose|e: int|
                0 <= e < before.len() && (#[trigger] before[e]).0@ == c.steps[ii].inputs[jj];
            assert(before[e].0@ != nm0);
        }
    }
    assert(downstream_upto(c, nm0, i) == Seq::<int>::empty()) by {
        lemma_downstream_upto_empty(c, nm0, i);
    }
    assert(step_consumes_upto(c.steps[i], nm0, i, j) == Seq::<int>::empty()) by {
        lemma_step_consumes_empty(c.steps[i], nm0, i, j);
    }
    assert forall|ee: int| 0 <= ee < after.len() implies adj_entry_view(#[trigger] after[ee]).1
        == downstream_upto(c, after[ee].0@, i) + step_consumes_upto(
        c.steps[i],
        after[ee].0@,
        i,
        j + 1,
    ) by {
        let nm = after[ee].0@;
        assert(step_consumes_upto(c.steps[i], nm, i, j + 1) == step_consumes_upto(
            c.steps[i],
            nm,
            i,
            j,
        ) + (if c.steps[i].inputs[j] == nm {
            seq![i]
        } else {
            Seq::<int>::empty()
        }));
        if ee == after.len() - 1 {
            assert(nm == nm0);
            assert(adj_entry_view(after[ee]).1 =~= downstream_upto(c, nm, i)
                + step_consumes_upto(c.steps[i], nm, i, j + 1));
        } else {
            assert(after[ee] == before[ee]);
            assert(nm != nm0);
            assert(adj_entry_view(after[ee]).1 =~= downstream_upto(c, nm, i)
                + step_consumes_upto(c.steps[i], nm, i, j + 1));
        }
    }
}

} // verus!
