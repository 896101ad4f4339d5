use actor_dag::messages::ProcessMessage;
use actor_dag::step::{Params, Trace, TraceStep};
use actor_dag::steps::batch_pooler::{BatchPooler, PoolingMode};
use actor_dag::steps::csv_reader::CsvReader;
use actor_dag::steps::data_generator::DataGenerator;
use actor_dag::steps::feature_processor::FeatureProcessor;
use actor_dag::steps::ml_model::MLModel;
use actor_dag::steps::printer::Printer;
use actor_dag::steps::step_join_point::{JoinMode, StepJoinPoint, StepJoinPointOutputMode};

fn msg(id: u64, node_id: &str, data: Vec<u64>) -> ProcessMessage {
    ProcessMessage {
        id,
        node_id: node_id.to_string(),
        data,
        batch_id: None,
        batch_total: None,
        trace: Trace::new(),
    }
}

fn batch_msg(id: u64, node_id: &str, data: Vec<u64>, batch_id: u64, total: u32) -> ProcessMessage {
    ProcessMessage {
        id,
        node_id: node_id.to_string(),
        data,
        batch_id: Some(batch_id),
        batch_total: Some(total),
        trace: Trace::new(),
    }
}

fn join(mode: &str) -> StepJoinPoint {
    let mut params = Params::new();
    params.mode = Some(mode.to_string());
    StepJoinPoint::new_from_params(
        "join".to_string(),
        "joined".to_string(),
        vec!["a_out".to_string(), "b_out".to_string()],
        params,
    )
}

#[test]
fn join_mode_defaults_to_and() {
    let j = StepJoinPoint::new_from_params(
        "join".to_string(),
        "joined".to_string(),
        vec![],
        Params::new(),
    );
    assert!(matches!(j.mode, JoinMode::AND));
    assert!(matches!(j.output_mode, StepJoinPointOutputMode::Flatten));
    assert!(matches!(JoinMode::default(), JoinMode::AND));
}

#[test]
fn join_and_waits_for_all_branches() {
    let mut j = join("AND");
    // First branch buffers.
    assert!(j.handle(msg(7, "a_out", vec![1, 2])).is_none());
    // Second branch completes the key: one emission, data in declared order.
    let out = j.handle(msg(7, "b_out", vec![3])).unwrap();
    assert_eq!(out.id, 7);
    assert_eq!(out.node_id, "joined");
    assert_eq!(out.data, vec![1, 2, 3]);
    // The slot was cleared: the key starts over.
    assert!(j.handle(msg(7, "b_out", vec![9])).is_none());
}

#[test]
fn join_and_concatenates_in_declared_order_regardless_of_arrival() {
    let mut j = join("AND");
    assert!(j.handle(msg(5, "b_out", vec![30, 40])).is_none());
    let out = j.handle(msg(5, "a_out", vec![10, 20])).unwrap();
    // Declared order is a_out then b_out.
    assert_eq!(out.data, vec![10, 20, 30, 40]);
}

#[test]
fn join_and_correlates_by_batch_id_when_present() {
    let mut j = join("AND");
    assert!(j.handle(batch_msg(1, "a_out", vec![1], 42, 2)).is_none());
    let out = j.handle(batch_msg(2, "b_out", vec![2], 42, 2)).unwrap();
    assert_eq!(out.id, 42);
    assert_eq!(out.batch_id, Some(42));
}

#[test]
fn join_and_keeps_keys_independent() {
    let mut j = join("AND");
    assert!(j.handle(msg(1, "a_out", vec![1])).is_none());
    assert!(j.handle(msg(2, "a_out", vec![2])).is_none());
    let out2 = j.handle(msg(2, "b_out", vec![20])).unwrap();
    assert_eq!(out2.id, 2);
    assert_eq!(out2.data, vec![2, 20]);
    let out1 = j.handle(msg(1, "b_out", vec![10])).unwrap();
    assert_eq!(out1.id, 1);
    assert_eq!(out1.data, vec![1, 10]);
}

#[test]
fn join_or_emits_first_arrival_verbatim_and_drops_the_rest() {
    let mut j = join("OR");
    let out = j.handle(msg(3, "b_out", vec![5, 6])).unwrap();
    assert_eq!(out.id, 3);
    assert_eq!(out.data, vec![5, 6]);
    assert_eq!(out.node_id, "joined");
    // The other branch for the same key is dropped.
    assert!(j.handle(msg(3, "a_out", vec![7])).is_none());
}

#[test]
fn join_appends_its_trace_record() {
    let mut j = join("OR");
    let mut m = msg(3, "a_out", vec![5]);
    let rec = TraceStep::new("src", 0, Params::new());
    m.trace.add_step(rec);
    let out = j.handle(m).unwrap();
    assert_eq!(out.trace.steps.len(), 2);
    assert_eq!(out.trace.steps[0].node_id, "src");
    assert_eq!(out.trace.steps[1].node_id, "join");
}

fn window_pooler(size: u64) -> BatchPooler {
    let mut params = Params::new();
    params.window_size = Some(size);
    BatchPooler::new_from_params("pool".to_string(), "pooled".to_string(), params)
}

#[test]
fn pooler_mode_from_params() {
    let p = window_pooler(3);
    assert!(matches!(p.mode, PoolingMode::Window { size: 3 }));
    let q = BatchPooler::new_from_params("pool".to_string(), "pooled".to_string(), Params::new());
    assert!(matches!(q.mode, PoolingMode::BatchId));
    assert!(matches!(PoolingMode::default(), PoolingMode::Window { size: 10 }));
}

#[test]
fn window_pooler_flushes_every_w_messages_preserving_data() {
    // Feeding N*W messages of length L yields N emissions of length W*L,
    // and the concatenated emissions equal the concatenation of the inputs.
    let mut p = window_pooler(2);
    let inputs: Vec<Vec<u64>> = vec![vec![1, 2], vec![3, 4], vec![5, 6], vec![7, 8]];
    let mut emitted: Vec<ProcessMessage> = Vec::new();
    for (k, data) in inputs.iter().enumerate() {
        if let Some(out) = p.handle(msg(k as u64 + 1, "raw", data.clone())) {
            emitted.push(out);
        }
    }
    assert_eq!(emitted.len(), 2);
    assert_eq!(emitted[0].data, vec![1, 2, 3, 4]);
    assert_eq!(emitted[1].data, vec![5, 6, 7, 8]);
    // Triggering message's id is kept.
    assert_eq!(emitted[0].id, 2);
    assert_eq!(emitted[1].id, 4);
    let all_in: Vec<u64> = inputs.concat();
    let all_out: Vec<u64> = emitted.iter().flat_map(|m| m.data.clone()).collect();
    assert_eq!(all_in, all_out);
}

#[test]
fn batch_pooler_groups_by_batch_id_in_insertion_order() {
    let mut p = BatchPooler::new_from_params(
        "pool".to_string(),
        "pooled".to_string(),
        Params::new(),
    );
    // Two interleaved batches never mix.
    assert!(p.handle(batch_msg(1, "raw", vec![1], 100, 2)).is_none());
    assert!(p.handle(batch_msg(2, "raw", vec![9], 200, 2)).is_none());
    let out100 = p.handle(batch_msg(3, "raw", vec![2], 100, 2)).unwrap();
    assert_eq!(out100.id, 100);
    assert_eq!(out100.data, vec![1, 2]);
    assert_eq!(out100.batch_id, Some(100));
    assert_eq!(out100.batch_total, Some(2));
    let out200 = p.handle(batch_msg(4, "raw", vec![10], 200, 2)).unwrap();
    assert_eq!(out200.id, 200);
    assert_eq!(out200.data, vec![9, 10]);
}

#[test]
fn batch_pooler_drops_messages_without_batch_fields() {
    let mut p = BatchPooler::new_from_params(
        "pool".to_string(),
        "pooled".to_string(),
        Params::new(),
    );
    assert!(p.handle(msg(1, "raw", vec![1])).is_none());
    // The unkeyed message left no buffer behind: a complete batch of two
    // still needs both of its members.
    assert!(p.handle(batch_msg(2, "raw", vec![2], 5, 2)).is_none());
    assert!(p.handle(batch_msg(3, "raw", vec![3], 5, 2)).is_some());
}

#[test]
fn generator_assigns_monotone_ids_and_batches() {
    let mut params = Params::new();
    params.batch_mode = Some(true);
    params.batch_size = Some(2);
    params.limit = Some(5);
    let mut g = DataGenerator::new_from_params(
        "src".to_string(),
        "raw".to_string(),
        params,
    );
    let mut got: Vec<ProcessMessage> = Vec::new();
    for _ in 0..10 {
        if let Some(m) = g.next_message(vec![0, 0, 0, 0, 0]) {
            got.push(m);
        }
    }
    // The limit stops emission at five messages.
    assert_eq!(got.len(), 5);
    let ids: Vec<u64> = got.iter().map(|m| m.id).collect();
    assert_eq!(ids, vec![1, 2, 3, 4, 5]);
    // The batch id advances every two messages; batch_total is the size.
    let bids: Vec<u64> = got.iter().map(|m| m.batch_id.unwrap()).collect();
    assert_eq!(bids, vec![1, 1, 2, 2, 3]);
    assert!(got.iter().all(|m| m.batch_total == Some(2)));
    // The source starts each trace with its own record.
    assert_eq!(got[0].trace.steps.len(), 1);
    assert_eq!(got[0].trace.steps[0].node_id, "src");
}

#[test]
fn feature_processor_reemits_under_its_output_name() {
    let f = FeatureProcessor::new_from_params(
        "norm".to_string(),
        "normalized_data".to_string(),
        Params::new(),
    );
    let out = f.handle(msg(9, "raw", vec![4, 2]), vec![100, 50]);
    assert_eq!(out.id, 9);
    assert_eq!(out.node_id, "normalized_data");
    assert_eq!(out.data, vec![100, 50]);
    assert_eq!(out.trace.steps.len(), 1);
    assert_eq!(out.trace.steps[0].node_id, "norm");
}

#[test]
fn ml_model_drops_empty_input() {
    let m = MLModel::new_from_params("model".to_string(), "lr_output".to_string(), Params::new());
    assert!(m.handle(msg(1, "encoded_data", vec![]), vec![42]).is_none());
    let out = m.handle(msg(2, "encoded_data", vec![1, 2]), vec![42]).unwrap();
    assert_eq!(out.data, vec![42]);
    assert_eq!(out.node_id, "lr_output");
}

#[test]
fn printer_records_messages_in_arrival_order() {
    let mut p = Printer::new_from_params("print".to_string(), String::new(), Params::new());
    p.handle(msg(1, "joined", vec![1]));
    p.handle(msg(2, "joined", vec![2]));
    assert_eq!(p.received.len(), 2);
    assert_eq!(p.received[0].id, 1);
    assert_eq!(p.received[1].id, 2);
    // The printer completes each trace with its own record.
    assert_eq!(p.received[0].trace.steps.last().unwrap().node_id, "print");
}

#[test]
fn trace_merge_appends_records() {
    let mut t1 = Trace::new();
    t1.add_step(TraceStep::new("a", 1, Params::new()));
    let mut t2 = Trace::new();
    t2.add_step(TraceStep::new("b", 2, Params::new()));
    t2.add_step(TraceStep::new("c", 3, Params::new()));
    t1.merge(t2);
    let names: Vec<&str> = t1.steps.iter().map(|s| s.node_id.as_str()).collect();
    assert_eq!(names, vec!["a", "b", "c"]);
}

#[test]
fn csv_reader_shares_source_bookkeeping() {
    let mut params = Params::new();
    params.file_path = Some("/tmp/features.csv".to_string());
    params.limit = Some(2);
    let mut r = CsvReader::new_from_params("reader".to_string(), "raw".to_string(), params);
    assert_eq!(r.file_path, "/tmp/features.csv");
    let first = r.next_message(vec![1, 2]).unwrap();
    assert_eq!(first.id, 1);
    assert_eq!(first.node_id, "raw");
    assert_eq!(first.data, vec![1, 2]);
    let second = r.next_message(vec![3]).unwrap();
    assert_eq!(second.id, 2);
    // The limit stops the reader.
    assert!(r.next_message(vec![4]).is_none());
}

#[test]
fn window_pooler_of_one_flushes_every_message() {
    let mut p = window_pooler(1);
    let out = p.handle(msg(1, "raw", vec![7, 8])).unwrap();
    assert_eq!(out.data, vec![7, 8]);
    assert_eq!(out.id, 1);
    let out2 = p.handle(msg(2, "raw", vec![9])).unwrap();
    assert_eq!(out2.data, vec![9]);
}

#[test]
fn join_and_with_no_expected_inputs_emits_immediately() {
    let j0 = StepJoinPoint::new_from_params(
        "join".to_string(),
        "joined".to_string(),
        vec![],
        Params::new(),
    );
    let mut j = j0;
    let out = j.handle(msg(4, "whatever", vec![1])).unwrap();
    // Nothing was expected, so the combined data is empty.
    assert_eq!(out.id, 4);
    assert!(out.data.is_empty());
}
