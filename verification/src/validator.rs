use vstd::prelude::*;

use crate::config::{Config, ConfigView, StepConfig, StepConfigView};

verus! {

// ---------------------------------------------------------------------------
// Specification of what a well-formed graph configuration is.
// ---------------------------------------------------------------------------

/// Some step produces the output name `o`.
pub open spec fn produces(c: ConfigView, o: Seq<char>) -> bool {
    exists|i: int, k: int|
        0 <= i < c.steps.len() && 0 <= k < c.steps[i].outputs.len() && c.steps[i].outputs[k] == o
}

/// Every input named anywhere in the graph has a producer.
pub open spec fn all_inputs_produced(c: ConfigView) -> bool {
    forall|i: int, j: int|
        0 <= i < c.steps.len() && 0 <= j < c.steps[i].inputs.len() ==> produces(
            c,
            c.steps[i].inputs[j],
        )
}

/// The (step name, input name) pairs whose input lacks a producer, taken from
/// the first `m` inputs of step `s`, in declaration order.
pub open spec fn step_unproduced_upto(c: ConfigView, s: StepConfigView, m: int) -> Seq<
    (Seq<char>, Seq<char>),
>
    decreases m,
{
    if m <= 0 {
        Seq::empty()
    } else {
        step_unproduced_upto(c, s, m - 1) + if !produces(c, s.inputs[m - 1]) {
            seq![(s.name, s.inputs[m - 1])]
        } else {
            Seq::empty()
        }
    }
}

/// The unproduced (step name, input name) pairs of the first `n` steps.
pub open spec fn unproduced_upto(c: ConfigView, n: int) -> Seq<(Seq<char>, Seq<char>)>
    decreases n,
{
    if n <= 0 {
        Seq::empty()
    } else {
        unproduced_upto(c, n - 1) + step_unproduced_upto(
            c,
            c.steps[n - 1],
            c.steps[n - 1].inputs.len() as int,
        )
    }
}

/// All (step name, input name) pairs whose input lacks a producer.
pub open spec fn unproduced_pairs(c: ConfigView) -> Seq<(Seq<char>, Seq<char>)> {
    unproduced_upto(c, c.steps.len() as int)
}

/// Number of sources (steps with no inputs) among the first `n` steps.
pub open spec fn num_sources_upto(c: ConfigView, n: int) -> int
    decreases n,
{
    if n <= 0 {
        0
    } else {
        num_sources_upto(c, n - 1) + if c.steps[n - 1].inputs.len() == 0 {
            1int
        } else {
            0int
        }
    }
}

pub open spec fn num_sources(c: ConfigView) -> int {
    num_sources_upto(c, c.steps.len() as int)
}

/// Number of sinks (steps with no outputs) among the first `n` steps.
pub open spec fn num_sinks_upto(c: ConfigView, n: int) -> int
    decreases n,
{
    if n <= 0 {
        0
    } else {
        num_sinks_upto(c, n - 1) + if c.steps[n - 1].outputs.len() == 0 {
            1int
        } else {
            0int
        }
    }
}

pub open spec fn num_sinks(c: ConfigView) -> int {
    num_sinks_upto(c, c.steps.len() as int)
}

/// Two distinct declarations share the name `nm`.
pub open spec fn name_duplicated(c: ConfigView, nm: Seq<char>) -> bool {
    exists|i: int, j: int|
        0 <= i < j < c.steps.len() && c.steps[i].name == nm && c.steps[j].name == nm
}

pub open spec fn has_duplicate_names(c: ConfigView) -> bool {
    exists|nm: Seq<char>| name_duplicated(c, nm)
}

/// Some source is configured for batch emission.
pub open spec fn has_batch_generator(c: ConfigView) -> bool {
    exists|i: int|
        0 <= i < c.steps.len() && c.steps[i].node_type == "DataGenerator"@
            && c.steps[i].params.batch_mode == Some(true)
}

/// Step `i` is a pooler declared in BatchId mode although no source emits
/// batch information.
pub open spec fn pooler_batchid_violation(c: ConfigView, i: int) -> bool {
    &&& c.steps[i].node_type == "BatchPooler"@
    &&& c.steps[i].params.mode == Some("BatchId"@)
    &&& !has_batch_generator(c)
}

/// There is an edge from step `a` to step `b`: some output of `a` is an
/// input of `b`.
pub open spec fn edge_between(a: StepConfigView, b: StepConfigView) -> bool {
    exists|k: int| 0 <= k < a.outputs.len() && b.inputs.contains(a.outputs[k])
}

/// `r` assigns each step a rank that strictly increases along every edge.
pub open spec fn is_rank(c: ConfigView, r: Seq<int>) -> bool {
    &&& r.len() == c.steps.len()
    &&& forall|i: int, j: int|
        0 <= i < c.steps.len() && 0 <= j < c.steps.len() && edge_between(
            c.steps[i],
            c.steps[j],
        ) ==> r[i] < r[j]
}

/// The step graph is acyclic: a rank assignment exists. A cycle makes any
/// rank impossible (it would have to increase around the cycle), and for an
/// acyclic graph a topological order yields ranks.
pub open spec fn acyclic(c: ConfigView) -> bool {
    exists|r: Seq<int>| is_rank(c, r)
}

/// The configuration passes every static check.
pub open spec fn valid(c: ConfigView) -> bool {
    &&& !has_duplicate_names(c)
    &&& (c.http_mode || num_sources(c) == 1)
    &&& num_sinks(c) == 1
    &&& acyclic(c)
    &&& if c.http_mode {
        unproduced_pairs(c).len() <= 1
    } else {
        all_inputs_produced(c)
    }
    &&& forall|i: int| 0 <= i < c.steps.len() ==> !pooler_batchid_violation(c, i)
}

// ---------------------------------------------------------------------------
// Configuration errors.
// ---------------------------------------------------------------------------

/// A configuration error found by the validator. These are fatal at startup
/// and prevent any step from being instantiated.
#[derive(Debug)]
pub enum ValidationError {
    /// Two steps share this name.
    DuplicateName { name: String },
    /// This step consumes `input`, which no step produces.
    MissingProducer { step: String, input: String },
    /// The graph has `found` sources where exactly one is expected.
    WrongSourceCount { found: usize },
    /// The graph has `found` sinks where exactly one is expected.
    WrongSinkCount { found: usize },
    /// The step graph contains a cycle.
    CycleDetected,
    /// In request/response mode, `found` inputs lack a producer where at
    /// most one may.
    TooManyUnproduced { found: usize },
    /// This pooler runs in BatchId mode, but no source emits batches.
    PoolerWithoutBatchSource { pooler: String },
}

pub ghost enum ValidationErrorView {
    DuplicateName { name: Seq<char> },
    MissingProducer { step: Seq<char>, input: Seq<char> },
    WrongSourceCount { found: int },
    WrongSinkCount { found: int },
    CycleDetected,
    TooManyUnproduced { found: int },
    PoolerWithoutBatchSource { pooler: Seq<char> },
}

impl View for ValidationError {
    type V = ValidationErrorView;

    open spec fn view(&self) -> ValidationErrorView {
        match self {
            ValidationError::DuplicateName { name } => ValidationErrorView::DuplicateName {
                name: name@,
            },
            ValidationError::MissingProducer { step, input } => {
                ValidationErrorView::MissingProducer { step: step@, input: input@ }
            },
            ValidationError::WrongSourceCount { found } => ValidationErrorView::WrongSourceCount {
                found: *found as int,
            },
            ValidationError::WrongSinkCount { found } => ValidationErrorView::WrongSinkCount {
                found: *found as int,
            },
            ValidationError::CycleDetected => ValidationErrorView::CycleDetected,
            ValidationError::TooManyUnproduced { found } => {
                ValidationErrorView::TooManyUnproduced { found: *found as int }
            },
            ValidationError::PoolerWithoutBatchSource { pooler } => {
                ValidationErrorView::PoolerWithoutBatchSource { pooler: pooler@ }
            },
        }
    }
}

/// The error list contains (a value whose view is) `e`.
pub open spec fn contains_err(es: Seq<ValidationError>, e: ValidationErrorView) -> bool {
    exists|k: int| 0 <= k < es.len() && es[k]@ == e
}

/// `es2` extends `es1` pointwise.
pub open spec fn extends(es2: Seq<ValidationError>, es1: Seq<ValidationError>) -> bool {
    &&& es1.len() <= es2.len()
    &&& forall|k: int| 0 <= k < es1.len() ==> es2[k] == es1[k]
}

/// The error describes a violation actually present in `c`.
pub open spec fn err_real(c: ConfigView, e: ValidationErrorView) -> bool {
    match e {
        ValidationErrorView::DuplicateName { name } => name_duplicated(c, name),
        ValidationErrorView::MissingProducer { step, input } => !c.http_mode && exists|i: int, j: int|
            0 <= i < c.steps.len() && 0 <= j < c.steps[i].inputs.len() && c.steps[i].name == step
                && c.steps[i].inputs[j] == input && !produces(c, input),
        ValidationErrorView::WrongSourceCount { found } => !c.http_mode && found == num_sources(c)
            && found != 1,
        ValidationErrorView::WrongSinkCount { found } => found == num_sinks(c) && found != 1,
        ValidationErrorView::CycleDetected => !acyclic(c),
        ValidationErrorView::TooManyUnproduced { found } => c.http_mode && found
            == unproduced_pairs(c).len() && found > 1,
        ValidationErrorView::PoolerWithoutBatchSource { pooler } => exists|i: int|
            0 <= i < c.steps.len() && c.steps[i].name == pooler && pooler_batchid_violation(c, i),
    }
}

pub open spec fn all_real(c: ConfigView, es: Seq<ValidationError>) -> bool {
    forall|k: int| 0 <= k < es.len() ==> err_real(c, #[trigger] es[k]@)
}

// ---------------------------------------------------------------------------
// Small executable helpers with exact contracts.
// ---------------------------------------------------------------------------

/// True iff `s` spells the same characters as the literal `lit`.
pub(crate) fn is_lit(s: &String, lit: &str) -> (r: bool)
    ensures
        r == (s@ == lit@),
{
    let t = lit.to_owned();
    *s == t
}

/// True iff some name in `v` equals `name`.
fn contains_name(v: &Vec<String>, name: &String) -> (r: bool)
    ensures
        r == Seq::new(v@.len(), |i: int| v@[i]@).contains(name@),
{
    let ghost names = Seq::new(v@.len(), |i: int| v@[i]@);
    let mut i: usize = 0;
    while i < v.len()
        invariant
            i <= v.len(),
            names == Seq::new(v@.len(), |k: int| v@[k]@),
            forall|k: int| 0 <= k < i ==> names[k] != name@,
        decreases v.len() - i,
    {
        if v[i] == *name {
            assert(names[i as int] == name@);
            return true;
        }
        i = i + 1;
    }
    false
}

/// True iff some step of the configuration produces `name`.
fn produces_exec(config: &Config, name: &String) -> (r: bool)
    ensures
        r == produces(config@, name@),
{
    let ghost c = config@;
    let mut i: usize = 0;
    while i < config.steps.len()
        invariant
            c == config@,
            i <= config.steps.len(),
            forall|ii: int, k: int|
                0 <= ii < i && 0 <= k < c.steps[ii].outputs.len() ==> c.steps[ii].outputs[k]
                    != name@,
        decreases config.steps.len() - i,
    {
        if contains_name(&config.steps[i].outputs, name) {
            proof {
                let k = choose|k: int|
                    0 <= k < c.steps[i as int].outputs.len() && c.steps[i as int].outputs[k]
                        == name@;
                assert(produces(c, name@));
            }
            return true;
        }
        i = i + 1;
    }
    proof {
        assert(forall|ii: int, k: int|
            0 <= ii < c.steps.len() && 0 <= k < c.steps[ii].outputs.len() ==> c.steps[ii].outputs[k]
                != name@);
    }
    false
}

/// True iff some step `b` input is an output of `a`.
fn has_edge(a: &StepConfig, b: &StepConfig) -> (r: bool)
    ensures
        r == edge_between(a@, b@),
{
    let mut k: usize = 0;
    while k < a.outputs.len()
        invariant
            k <= a.outputs.len(),
            forall|kk: int| 0 <= kk < k ==> !b@.inputs.contains(a@.outputs[kk]),
        decreases a.outputs.len() - k,
    {
        if contains_name(&b.inputs, &a.outputs[k]) {
            assert(b@.inputs.contains(a@.outputs[k as int]));
            return true;
        }
        k = k + 1;
    }
    false
}

/// Counts the sources (steps with no inputs).
fn count_sources(config: &Config) -> (r: usize)
    ensures
        r as int == num_sources(config@),
{
    let mut count: usize = 0;
    let mut i: usize = 0;
    while i < config.steps.len()
        invariant
            i <= config.steps.len(),
            count <= i,
            count as int == num_sources_upto(config@, i as int),
        decreases config.steps.len() - i,
    {
        if config.steps[i].inputs.len() == 0 {
            count = count + 1;
        }
        i = i + 1;
    }
    count
}

/// Counts the sinks (steps with no outputs).
fn count_sinks(config: &Config) -> (r: usize)
    ensures
        r as int == num_sinks(config@),
{
    let mut count: usize = 0;
    let mut i: usize = 0;
    while i < config.steps.len()
        invariant
            i <= config.steps.len(),
            count <= i,
            count as int == num_sinks_upto(config@, i as int),
        decreases config.steps.len() - i,
    {
        if config.steps[i].outputs.len() == 0 {
            count = count + 1;
        }
        i = i + 1;
    }
    count
}

/// True iff some source step is configured for batch emission.
fn has_batch_generator_exec(config: &Config) -> (r: bool)
    ensures
        r == has_batch_generator(config@),
{
    let ghost c = config@;
    let mut i: usize = 0;
    while i < config.steps.len()
        invariant
            c == config@,
            i <= config.steps.len(),
            forall|ii: int|
                0 <= ii < i ==> !(c.steps[ii].node_type == "DataGenerator"@
                    && c.steps[ii].params.batch_mode == Some(true)),
        decreases config.steps.len() - i,
    {
        let step = &config.steps[i];
        if is_lit(&step.node_type, "DataGenerator") {
            let batch_on = match &step.params.batch_mode {
                Some(b) => *b,
                None => false,
            };
            if batch_on {
                assert(c.steps[i as int].params.batch_mode == Some(true));
                return true;
            }
        }
        i = i + 1;
    }
    false
}

/// Counts the inputs that lack a producer, over all steps. The tally is kept
/// as a vector of the offending inputs so its length is bounded by what fits
/// in memory rather than by an arithmetic argument.
fn count_unproduced(config: &Config) -> (r: usize)
    ensures
        r as int == unproduced_pairs(config@).len(),
{
    let ghost c = config@;
    let mut found: Vec<()> = Vec::new();
    let mut i: usize = 0;
    while i < config.steps.len()
        invariant
            c == config@,
            i <= config.steps.len(),
            found@.len() == unproduced_upto(c, i as int).len(),
        decreases config.steps.len() - i,
    {
        let step = &config.steps[i];
        let mut j: usize = 0;
        while j < step.inputs.len()
            invariant
                c == config@,
                i < config.steps.len(),
                step == &config.steps[i as int],
                j <= step.inputs.len(),
                found@.len() == unproduced_upto(c, i as int).len() + step_unproduced_upto(
                    c,
                    c.steps[i as int],
                    j as int,
                ).len(),
            decreases step.inputs.len() - j,
        {
            assert(c.steps[i as int].inputs[j as int] == step.inputs@[j as int]@);
            if !produces_exec(config, &step.inputs[j]) {
                found.push(());
            }
            j = j + 1;
        }
        i = i + 1;
    }
    found.len()
}

// ---------------------------------------------------------------------------
// Cycle detection.
//
// The executable check repeatedly retires a step that has no edge from a
// still-live step (a topological elimination). If everything retires, the
// retirement times are a rank assignment, so the graph is acyclic. If it gets
// stuck, every live step has a live predecessor, and no rank assignment can
// exist: a minimal-rank live step would need a smaller-ranked live
// predecessor.
// ---------------------------------------------------------------------------

/// How many steps have been retired.
pub open spec fn count_true(s: Seq<bool>) -> int
    decreases s.len(),
{
    if s.len() == 0 {
        0
    } else {
        count_true(s.drop_last()) + if s.last() {
            1int
        } else {
            0int
        }
    }
}

proof fn lemma_count_true_bounds(s: Seq<bool>)
    ensures
        0 <= count_true(s) <= s.len(),
        (forall|i: int| 0 <= i < s.len() ==> s[i]) ==> count_true(s) == s.len(),
        count_true(s) == s.len() ==> forall|i: int| 0 <= i < s.len() ==> s[i],
    decreases s.len(),
{
    if s.len() > 0 {
        lemma_count_true_bounds(s.drop_last());
        if forall|i: int| 0 <= i < s.len() ==> s[i] {
            assert(forall|i: int| 0 <= i < s.drop_last().len() ==> s.drop_last()[i]);
        }
        if count_true(s) == s.len() {
            assert(s.last());
            assert(forall|i: int|
                0 <= i < s.len() - 1 ==> s[i] == s.drop_last()[i] && s.drop_last()[i]);
        }
    }
}

proof fn lemma_count_true_update(s: Seq<bool>, i: int)
    requires
        0 <= i < s.len(),
        !s[i],
    ensures
        count_true(s.update(i, true)) == count_true(s) + 1,
    decreases s.len(),
{
    let s2 = s.update(i, true);
    if i == s.len() - 1 {
        assert(s2.drop_last() =~= s.drop_last());
    } else {
        assert(s2.drop_last() =~= s.drop_last().update(i, true));
        lemma_count_true_update(s.drop_last(), i);
        assert(s2.last() == s.last());
    }
}

/// Among the live (not retired) steps below `k` there is one of minimal rank.
proof fn lemma_min_live(retired: Seq<bool>, r: Seq<int>, k: int)
    requires
        1 <= k <= retired.len(),
        r.len() == retired.len(),
        exists|i: int| 0 <= i < k && !retired[i],
    ensures
        exists|m: int|
            0 <= m < k && !retired[m] && (forall|a: int|
                0 <= a < k && !retired[a] ==> r[m] <= r[a]),
    decreases k,
{
    if k == 1 {
        assert(!retired[0]);
        assert(forall|a: int| 0 <= a < 1 && !retired[a] ==> r[0] <= r[a]);
    } else {
        if exists|i: int| 0 <= i < k - 1 && !retired[i] {
            lemma_min_live(retired, r, k - 1);
            let m0 = choose|m: int|
                0 <= m < k - 1 && !retired[m] && (forall|a: int|
                    0 <= a < k - 1 && !retired[a] ==> r[m] <= r[a]);
            if !retired[k - 1] && r[k - 1] < r[m0] {
                assert(forall|a: int| 0 <= a < k && !retired[a] ==> r[k - 1] <= r[a]);
            } else {
                assert(forall|a: int| 0 <= a < k && !retired[a] ==> r[m0] <= r[a]);
            }
        } else {
            let i0 = choose|i: int| 0 <= i < k && !retired[i];
            assert(i0 == k - 1);
            assert(forall|a: int| 0 <= a < k && !retired[a] ==> r[k - 1] <= r[a]);
        }
    }
}

/// True iff some live step has an edge into step `i`.
fn incoming_live(config: &Config, retired: &Vec<bool>, i: usize) -> (r: bool)
    requires
        retired@.len() == config.steps@.len(),
        i < config.steps@.len(),
    ensures
        r == exists|j: int|
            0 <= j < config@.steps.len() && !retired@[j] && edge_between(
                config@.steps[j],
                config@.steps[i as int],
            ),
{
    let ghost c = config@;
    let mut j: usize = 0;
    while j < config.steps.len()
        invariant
            c == config@,
            retired@.len() == config.steps@.len(),
            i < config.steps@.len(),
            j <= config.steps@.len(),
            forall|jj: int|
                0 <= jj < j ==> !(!retired@[jj] && edge_between(c.steps[jj], c.steps[i as int])),
        decreases config.steps.len() - j,
    {
        if !retired[j] && has_edge(&config.steps[j], &config.steps[i]) {
            return true;
        }
        j = j + 1;
    }
    false
}

/// Finds a live step with no incoming edge from a live step, if any.
fn find_ready(config: &Config, retired: &Vec<bool>) -> (r: Option<usize>)
    requires
        retired@.len() == config.steps@.len(),
    ensures
        match r {
            Some(i) => i < config.steps@.len() && !retired@[i as int] && forall|j: int|
                0 <= j < config@.steps.len() && !retired@[j] ==> !edge_between(
                    config@.steps[j],
                    config@.steps[i as int],
                ),
            None => forall|i: int|
                0 <= i < config@.steps.len() && !retired@[i] ==> exists|j: int|
                    0 <= j < config@.steps.len() && !retired@[j] && edge_between(
                        #[trigger] config@.steps[j],
                        config@.steps[i],
                    ),
        },
{
    let ghost c = config@;
    let mut i: usize = 0;
    while i < config.steps.len()
        invariant
            c == config@,
            retired@.len() == config.steps@.len(),
            i <= config.steps@.len(),
            forall|ii: int|
                0 <= ii < i && !retired@[ii] ==> exists|j: int|
                    0 <= j < c.steps.len() && !retired@[j] && edge_between(
                        #[trigger] c.steps[j],
                        c.steps[ii],
                    ),
        decreases config.steps.len() - i,
    {
        if !retired[i] {
            if !incoming_live(config, retired, i) {
                return Some(i);
            }
        }
        i = i + 1;
    }
    None
}

/// Checks whether the step graph has a cycle, where the edges run from a
/// step to every step that consumes one of its outputs.
#[verifier::rlimit(60)]
pub fn has_cycles(config: &Config) -> (r: bool)
    ensures
        r == !acyclic(config@),
{
    let ghost c = config@;
    let n = config.steps.len();
    let mut retired: Vec<bool> = Vec::new();
    let mut fill: usize = 0;
    while fill < n
        invariant
            fill <= n,
            retired@.len() == fill,
            forall|k: int| 0 <= k < fill ==> !retired@[k],
        decreases n - fill,
    {
        retired.push(false);
        fill = fill + 1;
    }
    let ghost mut rank: Seq<int> = Seq::new(n as nat, |i: int| 0int);
    let mut t: usize = 0;
    proof {
        lemma_count_true_bounds(retired@);
        assert(count_true(retired@) == 0) by {
            lemma_count_all_false(retired@);
        };
    }
    while t < n
        invariant
            c == config@,
            n == config.steps@.len(),
            retired@.len() == n,
            rank.len() == n,
            t as int == count_true(retired@),
            t <= n,
            retire_inv(c, retired@, rank, t as int),
        decreases n - t,
    {
        match find_ready(config, &retired) {
            Some(i) => {
                proof {
                    lemma_count_true_update(retired@, i as int);
                    lemma_retire_step(c, retired@, rank, t as int, i as int);
                }
                retired.set(i, true);
                proof {
                    rank = rank.update(i as int, t as int);
                }
                t = t + 1;
            },
            None => {
                // Stuck: every live step has a live predecessor, so no rank
                // assignment can exist.
                proof {
                    lemma_count_true_bounds(retired@);
                    lemma_stuck_not_acyclic(c, retired@);
                }
                return true;
            },
        }
    }
    // Everything retired: the retirement times rank the steps.
    proof {
        lemma_count_true_bounds(retired@);
        assert(forall|i: int| 0 <= i < n ==> retired@[i]);
        assert(is_rank(c, rank));
    }
    false
}

/// The retirement invariant: retired steps carry ranks below `t`, and every
/// edge into a retired step comes from an earlier-retired step.
pub open spec fn retire_inv(c: ConfigView, retired: Seq<bool>, rank: Seq<int>, t: int) -> bool {
    &&& forall|i: int| 0 <= i < retired.len() && retired[i] ==> 0 <= rank[i] < t
    &&& forall|i: int, j: int|
        0 <= i < retired.len() && 0 <= j < retired.len() && retired[i] && edge_between(
            c.steps[j],
            c.steps[i],
        ) ==> retired[j] && rank[j] < rank[i]
}

/// Retiring a step with no live predecessor preserves the invariant.
proof fn lemma_retire_step(c: ConfigView, retired: Seq<bool>, rank: Seq<int>, t: int, i: int)
    requires
        retired.len() == c.steps.len(),
        rank.len() == c.steps.len(),
        0 <= i < c.steps.len(),
        !retired[i],
        0 <= t,
        retire_inv(c, retired, rank, t),
        forall|j: int|
            0 <= j < c.steps.len() && !retired[j] ==> !edge_between(
                c.steps[j],
                c.steps[i],
            ),
    ensures
        retire_inv(c, retired.update(i, true), rank.update(i, t), t + 1),
{
    let retired2 = retired.update(i, true);
    let rank2 = rank.update(i, t);
    assert forall|a: int| 0 <= a < retired2.len() && retired2[a] implies 0 <= rank2[a] < t + 1 by {
        if a != i {
            assert(retired[a]);
        }
    }
    assert forall|a: int, b: int|
        0 <= a < retired2.len() && 0 <= b < retired2.len() && retired2[a] && edge_between(
            c.steps[b],
            c.steps[a],
        ) implies retired2[b] && rank2[b] < rank2[a] by {
        if a == i {
            // Any edge into `i` comes from a retired step, ranked below `t`.
            assert(retired[b]);
            assert(rank[b] < t);
        } else {
            assert(retired[a]);
            assert(retired[b] && rank[b] < rank[a]);
            assert(b != i);
        }
    }
}

/// If every live step has a live predecessor and some step is live, the
/// graph cannot be ranked: a live step of minimal rank would need a live
/// predecessor of smaller rank.
proof fn lemma_stuck_not_acyclic(c: ConfigView, retired: Seq<bool>)
    requires
        retired.len() == c.steps.len(),
        exists|i: int| 0 <= i < retired.len() && !retired[i],
        forall|i: int|
            0 <= i < c.steps.len() && !retired[i] ==> exists|j: int|
                0 <= j < c.steps.len() && !retired[j] && edge_between(
                    #[trigger] c.steps[j],
                    c.steps[i],
                ),
    ensures
        !acyclic(c),
{
    let n = c.steps.len() as int;
    if acyclic(c) {
        let rk = choose|rk: Seq<int>| is_rank(c, rk);
        lemma_min_live(retired, rk, n);
        let m = choose|m: int|
            0 <= m < n && !retired[m] && (forall|a: int| 0 <= a < n && !retired[a] ==> rk[m] <= rk[a]);
        let j = choose|j: int|
            0 <= j < n && !retired[j] && edge_between(#[trigger] c.steps[j], c.steps[m]);
        assert(rk[j] < rk[m]);
        assert(rk[m] <= rk[j]);
        assert(false);
    }
}

proof fn lemma_count_all_false(s: Seq<bool>)
    requires
        forall|k: int| 0 <= k < s.len() ==> !s[k],
    ensures
        count_true(s) == 0,
    decreases s.len(),
{
    if s.len() > 0 {
        assert(forall|k: int| 0 <= k < s.drop_last().len() ==> !s.drop_last()[k]);
        lemma_count_all_false(s.drop_last());
    }
}

// ---------------------------------------------------------------------------
// The validator itself. Each stage appends the errors of one check; all
// violations are reported, not only the first.
// ---------------------------------------------------------------------------

/// Appends one error per pooler declared in BatchId mode when no source
/// emits batches.
fn check_poolers(config: &Config, errors: &mut Vec<ValidationError>)
    ensures
        extends(final(errors)@, old(errors)@),
        all_real(config@, final(errors)@) == all_real(config@, old(errors)@),
        forall|i: int|
            0 <= i < config@.steps.len() && pooler_batchid_violation(config@, i) ==> contains_err(
                final(errors)@,
                ValidationErrorView::PoolerWithoutBatchSource { pooler: config@.steps[i].name },
            ),
{
    let ghost c = config@;
    let ghost base = errors@;
    let has_bg = has_batch_generator_exec(config);
    let mut i: usize = 0;
    while i < config.steps.len()
        invariant
            c == config@,
            i <= config.steps.len(),
            has_bg == has_batch_generator(c),
            extends(errors@, base),
            forall|k: int|
                base.len() <= k < errors@.len() ==> err_real(c, #[trigger] errors@[k]@),
            forall|ii: int|
                0 <= ii < i && pooler_batchid_violation(c, ii) ==> contains_err(
                    errors@,
                    ValidationErrorView::PoolerWithoutBatchSource { pooler: c.steps[ii].name },
                ),
        decreases config.steps.len() - i,
    {
        let step = &config.steps[i];
        if is_lit(&step.node_type, "BatchPooler") {
            let is_batchid = match &step.params.mode {
                Some(m) => is_lit(m, "BatchId"),
                None => false,
            };
            if is_batchid && !has_bg {
                let ghost before = errors@;
                errors.push(ValidationError::PoolerWithoutBatchSource {
                    pooler: step.name.clone(),
                });
                assert(errors@[before.len() as int]@
                    == (ValidationErrorView::PoolerWithoutBatchSource { pooler: c.steps[i as int].name }));
                assert(pooler_batchid_violation(c, i as int));
                assert(forall|ii: int|
                    0 <= ii < i && pooler_batchid_violation(c, ii) ==> contains_err(
                        errors@,
                        ValidationErrorView::PoolerWithoutBatchSource { pooler: c.steps[ii].name },
                    )) by {
                    lemma_contains_extends(before, errors@);
                };
            }
        }
        i = i + 1;
    }
    proof {
        lemma_all_real_split(c, base, errors@);
    }
}

/// Membership facts persist when the error list grows.
proof fn lemma_contains_extends(es1: Seq<ValidationError>, es2: Seq<ValidationError>)
    requires
        extends(es2, es1),
    ensures
        forall|e: ValidationErrorView| contains_err(es1, e) ==> contains_err(es2, e),
{
    assert forall|e: ValidationErrorView| contains_err(es1, e) implies contains_err(es2, e) by {
        let k = choose|k: int| 0 <= k < es1.len() && es1[k]@ == e;
        assert(es2[k]@ == e);
    }
}

/// If the old entries are all real and the new ones are too, the whole list
/// is, and conversely.
proof fn lemma_all_real_split(c: ConfigView, base: Seq<ValidationError>, es: Seq<ValidationError>)
    requires
        extends(es, base),
        forall|k: int| base.len() <= k < es.len() ==> err_real(c, #[trigger] es[k]@),
    ensures
        all_real(c, es) == all_real(c, base),
{
    if all_real(c, base) {
        assert forall|k: int| 0 <= k < es.len() implies err_real(c, #[trigger] es[k]@) by {
            if k < base.len() {
                assert(es[k] == base[k]);
                assert(err_real(c, base[k]@));
            }
        }
    }
    if all_real(c, es) {
        assert forall|k: int| 0 <= k < base.len() implies err_real(c, #[trigger] base[k]@) by {
            assert(es[k] == base[k]);
            assert(err_real(c, es[k]@));
        }
    }
}

/// Appends one error per consumed input that no step produces.
fn check_producers(config: &Config, errors: &mut Vec<ValidationError>)
    requires
        !config.http_mode,
    ensures
        extends(final(errors)@, old(errors)@),
        all_real(config@, final(errors)@) == all_real(config@, old(errors)@),
        forall|i: int, j: int|
            0 <= i < config@.steps.len() && 0 <= j < config@.steps[i].inputs.len() && !produces(
                config@,
                config@.steps[i].inputs[j],
            ) ==> contains_err(
                final(errors)@,
                ValidationErrorView::MissingProducer {
                    step: config@.steps[i].name,
                    input: config@.steps[i].inputs[j],
                },
            ),
{
    let ghost c = config@;
    let ghost base = errors@;
    let mut i: usize = 0;
    while i < config.steps.len()
        invariant
            c == config@,
            !c.http_mode,
            i <= config.steps.len(),
            extends(errors@, base),
            forall|k: int|
                base.len() <= k < errors@.len() ==> err_real(c, #[trigger] errors@[k]@),
            forall|ii: int, jj: int|
                0 <= ii < i && 0 <= jj < c.steps[ii].inputs.len() && !produces(
                    c,
                    c.steps[ii].inputs[jj],
                ) ==> contains_err(
                    errors@,
                    ValidationErrorView::MissingProducer {
                        step: c.steps[ii].name,
                        input: c.steps[ii].inputs[jj],
                    },
                ),
        decreases config.steps.len() - i,
    {
        let step = &config.steps[i];
        let mut j: usize = 0;
        while j < step.inputs.len()
            invariant
                c == config@,
                !c.http_mode,
                i < config.steps.len(),
                step == &config.steps[i as int],
                j <= step.inputs.len(),
                extends(errors@, base),
                forall|k: int|
                    base.len() <= k < errors@.len() ==> err_real(c, #[trigger] errors@[k]@),
                forall|ii: int, jj: int|
                    0 <= ii < i && 0 <= jj < c.steps[ii].inputs.len() && !produces(
                        c,
                        c.steps[ii].inputs[jj],
                    ) ==> contains_err(
                        errors@,
                        ValidationErrorView::MissingProducer {
                            step: c.steps[ii].name,
                            input: c.steps[ii].inputs[jj],
                        },
                    ),
                forall|jj: int|
                    0 <= jj < j && !produces(c, c.steps[i as int].inputs[jj]) ==> contains_err(
                        errors@,
                        ValidationErrorView::MissingProducer {
                            step: c.steps[i as int].name,
                            input: c.steps[i as int].inputs[jj],
                        },
                    ),
            decreases step.inputs.len() - j,
        {
            assert(c.steps[i as int].inputs[j as int] == step.inputs@[j as int]@);
            if !produces_exec(config, &step.inputs[j]) {
                let ghost before = errors@;
                errors.push(ValidationError::MissingProducer {
                    step: step.name.clone(),
                    input: step.inputs[j].clone(),
                });
                assert(errors@[before.len() as int]@
                    == (ValidationErrorView::MissingProducer {
                    step: c.steps[i as int].name,
                    input: c.steps[i as int].inputs[j as int],
                }));
                proof {
                    lemma_contains_extends(before, errors@);
                }
            }
            j = j + 1;
        }
        i = i + 1;
    }
    proof {
        lemma_all_real_split(c, base, errors@);
    }
}

/// Appends one error per step name that repeats an earlier declaration.
fn check_duplicates(config: &Config, errors: &mut Vec<ValidationError>)
    ensures
        extends(final(errors)@, old(errors)@),
        all_real(config@, final(errors)@) == all_real(config@, old(errors)@),
        forall|nm: Seq<char>|
            name_duplicated(config@, nm) ==> contains_err(
                final(errors)@,
                ValidationErrorView::DuplicateName { name: nm },
            ),
{
    let ghost c = config@;
    let ghost base = errors@;
    let mut j: usize = 0;
    while j < config.steps.len()
        invariant
            c == config@,
            j <= config.steps.len(),
            extends(errors@, base),
            forall|k: int|
                base.len() <= k < errors@.len() ==> err_real(c, #[trigger] errors@[k]@),
            forall|jj: int|
                0 <= jj < j && (exists|ii: int| 0 <= ii < jj && c.steps[ii].name == c.steps[jj].name)
                    ==> contains_err(
                    errors@,
                    ValidationErrorView::DuplicateName { name: c.steps[jj].name },
                ),
        decreases config.steps.len() - j,
    {
        let mut seen: bool = false;
        let mut i: usize = 0;
        while i < j
            invariant
                c == config@,
                j < config.steps.len(),
                i <= j,
                seen ==> exists|ii: int| 0 <= ii < j && c.steps[ii].name == c.steps[j as int].name,
                !seen ==> forall|ii: int| 0 <= ii < i ==> c.steps[ii].name != c.steps[j as int].name,
            decreases j - i,
        {
            if config.steps[i].name == config.steps[j].name {
                seen = true;
                assert(c.steps[i as int].name == c.steps[j as int].name);
            }
            i = i + 1;
        }
        if seen {
            let ghost before = errors@;
            errors.push(ValidationError::DuplicateName { name: config.steps[j].name.clone() });
            assert(errors@[before.len() as int]@
                == (ValidationErrorView::DuplicateName { name: c.steps[j as int].name }));
            assert(name_duplicated(c, c.steps[j as int].name));
            proof {
                lemma_contains_extends(before, errors@);
            }
        }
        j = j + 1;
    }
    proof {
        lemma_all_real_split(c, base, errors@);
        assert forall|nm: Seq<char>| name_duplicated(c, nm) implies contains_err(
            errors@,
            ValidationErrorView::DuplicateName { name: nm },
        ) by {
            let (ii, jj): (int, int) = choose|ii: int, jj: int|
                0 <= ii < jj < c.steps.len() && c.steps[ii].name == nm && c.steps[jj].name == nm;
            assert(contains_err(errors@, ValidationErrorView::DuplicateName {
                name: c.steps[jj].name,
            }));
        }
    }
}

/// Validates the configuration for consistency and correctness.
///
/// On success the configuration satisfies [`valid`]. On failure the list
/// holds one entry for every violation found: every duplicated name, every
/// consumed input without a producer, every pooler misconfiguration, a wrong
/// source or sink count, and a cycle; and nothing else (each reported error
/// describes a violation the configuration really has).
pub fn validate_config(config: &Config) -> (r: Result<(), Vec<ValidationError>>)
    ensures
        r is Ok <==> valid(config@),
        match r {
            Ok(_) => true,
            Err(es) => {
                &&& es@.len() > 0
                &&& all_real(config@, es@)
                &&& forall|nm: Seq<char>|
                    name_duplicated(config@, nm) ==> contains_err(
                        es@,
                        ValidationErrorView::DuplicateName { name: nm },
                    )
                &&& (!config@.http_mode && num_sources(config@) != 1 ==> contains_err(
                    es@,
                    ValidationErrorView::WrongSourceCount { found: num_sources(config@) },
                ))
                &&& (num_sinks(config@) != 1 ==> contains_err(
                    es@,
                    ValidationErrorView::WrongSinkCount { found: num_sinks(config@) },
                ))
                &&& (!acyclic(config@) ==> contains_err(es@, ValidationErrorView::CycleDetected))
                &&& (!config@.http_mode ==> forall|i: int, j: int|
                    0 <= i < config@.steps.len() && 0 <= j < config@.steps[i].inputs.len()
                        && !produces(config@, config@.steps[i].inputs[j]) ==> contains_err(
                        es@,
                        ValidationErrorView::MissingProducer {
                            step: config@.steps[i].name,
                            input: config@.steps[i].inputs[j],
                        },
                    ))
                &&& (config@.http_mode && unproduced_pairs(config@).len() > 1 ==> contains_err(
                    es@,
                    ValidationErrorView::TooManyUnproduced {
                        found: unproduced_pairs(config@).len() as int,
                    },
                ))
                &&& forall|i: int|
                    0 <= i < config@.steps.len() && pooler_batchid_violation(config@, i)
                        ==> contains_err(
                        es@,
                        ValidationErrorView::PoolerWithoutBatchSource {
                            pooler: config@.steps[i].name,
                        },
                    )
            },
        },
{
    let ghost c = config@;
    let mut errors: Vec<ValidationError> = Vec::new();

    // Pooler/generator consistency.
    check_poolers(config, &mut errors);
    let ghost es1 = errors@;
    proof {
        assert(all_real(c, es1));
    }

    // Structural shape: exactly one source (unless the virtual ingress
    // replaces it) and exactly one sink.
    let n_sources = count_sources(config);
    if !config.http_mode && n_sources != 1 {
        let ghost before = errors@;
        errors.push(ValidationError::WrongSourceCount { found: n_sources });
        proof {
            assert(errors@[before.len() as int]@
                == (ValidationErrorView::WrongSourceCount { found: num_sources(c) }));
            lemma_all_real_push(c, before, errors@);
        }
    }
    let n_sinks = count_sinks(config);
    if n_sinks != 1 {
        let ghost before = errors@;
        errors.push(ValidationError::WrongSinkCount { found: n_sinks });
        proof {
            assert(errors@[before.len() as int]@
                == (ValidationErrorView::WrongSinkCount { found: num_sinks(c) }));
            lemma_all_real_push(c, before, errors@);
            lemma_contains_extends(before, errors@);
        }
    }
    let ghost es2 = errors@;
    proof {
        assert(all_real(c, es2));
        assert(!c.http_mode && num_sources(c) != 1 ==> contains_err(
            es2,
            ValidationErrorView::WrongSourceCount { found: num_sources(c) },
        ));
        assert(num_sinks(c) != 1 ==> contains_err(
            es2,
            ValidationErrorView::WrongSinkCount { found: num_sinks(c) },
        ));
    }

    // Acyclicity.
    let cyclic = has_cycles(config);
    if cyclic {
        let ghost before = errors@;
        errors.push(ValidationError::CycleDetected);
        proof {
            assert(errors@[before.len() as int]@ == ValidationErrorView::CycleDetected);
            lemma_all_real_push(c, before, errors@);
            lemma_contains_extends(before, errors@);
        }
    }
    let ghost es3 = errors@;
    proof {
        assert(all_real(c, es3));
        assert(!acyclic(c) ==> contains_err(es3, ValidationErrorView::CycleDetected));
    }

    // Producer coverage.
    if config.http_mode {
        let n_unproduced = count_unproduced(config);
        if n_unproduced > 1 {
            let ghost before = errors@;
            errors.push(ValidationError::TooManyUnproduced { found: n_unproduced });
            proof {
                assert(errors@[before.len() as int]@
                    == (ValidationErrorView::TooManyUnproduced {
                    found: unproduced_pairs(c).len() as int,
                }));
                lemma_all_real_push(c, before, errors@);
                lemma_contains_extends(before, errors@);
            }
        }
    } else {
        check_producers(config, &mut errors);
    }
    let ghost es4 = errors@;
    proof {
        assert(all_real(c, es4));
    }

    // Name uniqueness.
    check_duplicates(config, &mut errors);

    proof {
        assert(all_real(c, errors@));
        assert(extends(errors@, es4));
        assert(extends(errors@, es3));
        assert(extends(errors@, es2));
        assert(extends(errors@, es1));
        lemma_contains_extends(es1, errors@);
        lemma_contains_extends(es2, errors@);
        lemma_contains_extends(es3, errors@);
        lemma_contains_extends(es4, errors@);
    }

    if errors.len() == 0 {
        proof {
            assert(!has_duplicate_names(c)) by {
                if has_duplicate_names(c) {
                    let nm = choose|nm: Seq<char>| name_duplicated(c, nm);
                    assert(contains_err(errors@, ValidationErrorView::DuplicateName { name: nm }));
                }
            };
            if !c.http_mode {
                assert(all_inputs_produced(c)) by {
                    if !all_inputs_produced(c) {
                        let (i, j): (int, int) = choose|i: int, j: int|
                            0 <= i < c.steps.len() && 0 <= j < c.steps[i].inputs.len() && !produces(
                                c,
                                c.steps[i].inputs[j],
                            );
                        assert(contains_err(
                            errors@,
                            ValidationErrorView::MissingProducer {
                                step: c.steps[i].name,
                                input: c.steps[i].inputs[j],
                            },
                        ));
                    }
                };
            }
            assert(forall|i: int| 0 <= i < c.steps.len() ==> !pooler_batchid_violation(c, i)) by {
                if exists|i: int| 0 <= i < c.steps.len() && pooler_batchid_violation(c, i) {
                    let i = choose|i: int|
                        0 <= i < c.steps.len() && pooler_batchid_violation(c, i);
                    assert(contains_err(
                        errors@,
                        ValidationErrorView::PoolerWithoutBatchSource { pooler: c.steps[i].name },
                    ));
                }
            };
            assert(valid(c));
        }
        Ok(())
    } else {
        proof {
            assert(all_real(c, errors@));
            assert(!valid(c)) by {
                assert(err_real(c, errors@[0]@));
                lemma_real_error_invalidates(c, errors@[0]@);
            };
        }
        Err(errors)
    }
}

/// Appending a real error keeps every entry real.
proof fn lemma_all_real_push(c: ConfigView, before: Seq<ValidationError>, after: Seq<ValidationError>)
    requires
        all_real(c, before),
        after.len() == before.len() + 1,
        forall|k: int| 0 <= k < before.len() ==> after[k] == before[k],
        err_real(c, after[before.len() as int]@),
    ensures
        all_real(c, after),
{
    assert forall|k: int| 0 <= k < after.len() implies err_real(c, #[trigger] after[k]@) by {
        if k < before.len() {
            assert(after[k] == before[k]);
            assert(err_real(c, before[k]@));
        }
    }
}


/// `path` names a cycle in the step graph: at least one edge, consecutive
/// steps connected, returning to its start. A self-loop is the length-two
/// case.
pub open spec fn is_cycle(c: ConfigView, path: Seq<int>) -> bool {
    &&& path.len() >= 2
    &&& forall|t: int| 0 <= t < path.len() ==> 0 <= #[trigger] path[t] < c.steps.len()
    &&& forall|t: int|
        0 <= t < path.len() - 1 ==> edge_between(
            c.steps[#[trigger] path[t]],
            c.steps[path[t + 1]],
        )
    &&& path[0] == path[path.len() - 1]
}

/// Ranks increase strictly along any edge path.
proof fn lemma_rank_increases(c: ConfigView, r: Seq<int>, path: Seq<int>, t: int)
    requires
        is_rank(c, r),
        forall|u: int| 0 <= u < path.len() ==> 0 <= #[trigger] path[u] < c.steps.len(),
        forall|u: int|
            0 <= u < path.len() - 1 ==> edge_between(
                c.steps[#[trigger] path[u]],
                c.steps[path[u + 1]],
            ),
        1 <= t < path.len(),
    ensures
        r[path[0]] < r[path[t]],
    decreases t,
{
    if t == 1 {
        assert(edge_between(c.steps[path[0]], c.steps[path[1]]));
    } else {
        lemma_rank_increases(c, r, path, t - 1);
        assert(edge_between(c.steps[path[t - 1]], c.steps[path[t]]));
    }
}

/// A graph with a self-loop or any cycle is rejected.
///
/// Law: a cycle makes a rank assignment impossible, so such a graph is not
/// `acyclic`; the validator then reports `CycleDetected` among its errors
/// (by its own contract) and refuses the configuration.
pub proof fn lemma_cycle_rejected(c: ConfigView, path: Seq<int>)
    requires
        is_cycle(c, path),
    ensures
        !acyclic(c),
        !valid(c),
{
    if acyclic(c) {
        let r = choose|r: Seq<int>| is_rank(c, r);
        lemma_rank_increases(c, r, path, path.len() - 1);
        assert(r[path[0]] < r[path[path.len() - 1]]);
        assert(false);
    }
}

/// A real violation contradicts validity.
proof fn lemma_real_error_invalidates(c: ConfigView, e: ValidationErrorView)
    requires
        err_real(c, e),
    ensures
        !valid(c),
{
    match e {
        ValidationErrorView::DuplicateName { name } => {
            assert(has_duplicate_names(c));
        },
        ValidationErrorView::MissingProducer { step, input } => {
            assert(!all_inputs_produced(c));
        },
        ValidationErrorView::WrongSourceCount { found } => {},
        ValidationErrorView::WrongSinkCount { found } => {},
        ValidationErrorView::CycleDetected => {},
        ValidationErrorView::TooManyUnproduced { found } => {},
        ValidationErrorView::PoolerWithoutBatchSource { pooler } => {
            let i = choose|i: int|
                0 <= i < c.steps.len() && c.steps[i].name == pooler && pooler_batchid_violation(
                    c,
                    i,
                );
            assert(!(forall|ii: int| 0 <= ii < c.steps.len() ==> !pooler_batchid_violation(c, ii)));
        },
    }
}

} // verus!
