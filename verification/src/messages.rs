use vstd::prelude::*;

use crate::config::Config;
use crate::step::{Trace, TraceStepView};

verus! {

/// A routed value packet: the completion of one processing step in the DAG.
///
/// `data` carries the feature vector as opaque 64-bit words; the library
/// routes, batches and joins these words without interpreting them, so the
/// numeric reading of a sample is the embedder's concern.
pub struct ProcessMessage {
    /// Unique identifier for the data, assigned monotonically by the source.
    pub id: u64,
    /// The output name under which this message was emitted; the routing key.
    pub node_id: String,
    /// The feature vector, raw or processed.
    pub data: Vec<u64>,
    /// Optional key grouping messages that belong to one logical batch.
    pub batch_id: Option<u64>,
    /// Optional count of messages expected in that batch.
    pub batch_total: Option<u32>,
    /// Trace records appended by each step that handled the message.
    pub trace: Trace,
}

pub ghost struct ProcessMessageView {
    pub id: u64,
    pub node_id: Seq<char>,
    pub data: Seq<u64>,
    pub batch_id: Option<u64>,
    pub batch_total: Option<u32>,
    pub trace: Seq<TraceStepView>,
}

impl View for ProcessMessage {
    type V = ProcessMessageView;

    open spec fn view(&self) -> ProcessMessageView {
        ProcessMessageView {
            id: self.id,
            node_id: self.node_id@,
            data: self.data@,
            batch_id: self.batch_id,
            batch_total: self.batch_total,
            trace: self.trace@,
        }
    }
}

impl ProcessMessageView {
    /// The key under which joins and poolers correlate this message:
    /// `batch_id` if present, else `id`.
    pub open spec fn key(self) -> u64 {
        match self.batch_id {
            Some(b) => b,
            None => self.id,
        }
    }
}

/// Copies a vector of data words.
pub fn dup_words(v: &Vec<u64>) -> (r: Vec<u64>)
    ensures
        r@ == v@,
{
    let mut data: Vec<u64> = Vec::new();
    let mut i: usize = 0;
    while i < v.len()
        invariant
            i <= v.len(),
            data@ =~= v@.subrange(0, i as int),
        decreases v.len() - i,
    {
        data.push(v[i]);
        i = i + 1;
    }
    assert(data@ =~= v@);
    data
}

impl ProcessMessage {
    /// An independent copy with the same view; this is what the coordinator
    /// hands to each downstream step, so fan-out cannot couple destinations.
    pub fn duplicate(&self) -> (r: ProcessMessage)
        ensures
            r@ == self@,
    {
        let data = dup_words(&self.data);
        ProcessMessage {
            id: self.id,
            node_id: self.node_id.clone(),
            data,
            batch_id: self.batch_id,
            batch_total: self.batch_total,
            trace: self.trace.duplicate(),
        }
    }
}

/// Asks the coordinator to validate a configuration and instantiate its steps.
pub struct Initialize {
    pub config: Config,
}

} // verus!
