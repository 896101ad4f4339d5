use actor_dag::config::{Config, StepConfig};
use actor_dag::coordinator::{Coordinator, Effect, StepActor};
use actor_dag::messages::ProcessMessage;
use actor_dag::step::Params;
use actor_dag::steps::http_output::SinkReply;

fn step(name: &str, node_type: &str, inputs: &[&str], outputs: &[&str]) -> StepConfig {
    StepConfig {
        name: name.to_string(),
        node_type: node_type.to_string(),
        inputs: inputs.iter().map(|s| s.to_string()).collect(),
        outputs: outputs.iter().map(|s| s.to_string()).collect(),
        params: Params::new(),
    }
}

fn to_bits(v: &[f64]) -> Vec<u64> {
    v.iter().map(|x| x.to_bits()).collect()
}

fn from_bits(v: &[u64]) -> Vec<f64> {
    v.iter().map(|w| f64::from_bits(*w)).collect()
}

/// The numeric leaf work of the stateless transforms, as the engine's
/// embedder performs it: divide by max for the normalizer, square for the
/// encoder, pass through for anything else.
fn process_floats(data: &[u64], output_name: &str) -> Vec<u64> {
    let floats = from_bits(data);
    let out: Vec<f64> = match output_name {
        "normalized_data" => {
            let max = floats.iter().cloned().fold(f64::NAN, f64::max);
            if max == 0.0 || max.is_nan() {
                floats
            } else {
                floats.iter().map(|x| x / max).collect()
            }
        }
        "encoded_data" => floats.iter().map(|x| x * x).collect(),
        _ => floats,
    };
    to_bits(&out)
}

/// Runs the coordinator to quiescence from the seeded messages, performing
/// the transforms' numeric work in between deliveries.
fn drive(coord: &mut Coordinator, seed: Vec<ProcessMessage>) {
    let mut queue: Vec<ProcessMessage> = seed;
    while !queue.is_empty() {
        let m = queue.remove(0);
        let targets = coord.route(&m.node_id);
        for i in targets {
            let copy = m.duplicate();
            match coord.handle_at(i, copy) {
                Effect::Emitted(out) => queue.push(out),
                Effect::NeedsData(back) => {
                    let followup = match &coord.actors[i] {
                        StepActor::FeatureProcessor(f) => {
                            let processed = process_floats(&back.data, f.output_name.as_str());
                            Some(f.handle(back, processed))
                        }
                        StepActor::MLModel(model) => {
                            let sum: f64 = from_bits(&back.data).iter().sum();
                            model.handle(back, vec![sum.to_bits()])
                        }
                        StepActor::PyFeatureProcessor(p) => p.handle(back, None),
                        _ => None,
                    };
                    if let Some(out) = followup {
                        queue.push(out);
                    }
                }
                _ => {}
            }
        }
    }
}

/// Pulls `n` emissions out of the generator at `src_index`, handing it the
/// given feature vectors.
fn generate(coord: &mut Coordinator, src_index: usize, vectors: &[Vec<f64>]) -> Vec<ProcessMessage> {
    let mut out = Vec::new();
    if let StepActor::DataGenerator(g) = &mut coord.actors[src_index] {
        for v in vectors {
            if let Some(m) = g.next_message(to_bits(v)) {
                out.push(m);
            }
        }
    } else {
        panic!("step at index {} is not a generator", src_index);
    }
    out
}

fn printer_received(coord: &Coordinator, index: usize) -> Vec<ProcessMessage> {
    if let StepActor::Printer(p) = &coord.actors[index] {
        p.received.iter().map(|m| m.duplicate()).collect()
    } else {
        panic!("step at index {} is not a printer", index);
    }
}

#[test]
fn scenario_normalize_to_printer() {
    // src(limit=3, batch_mode=false) -> normalize -> printer: three messages
    // appear at the printer, each with data equal to the source's vector
    // divided by its max.
    let mut src_params = Params::new();
    src_params.limit = Some(3);
    let config = Config {
        steps: vec![
            StepConfig {
                name: "src".to_string(),
                node_type: "DataGenerator".to_string(),
                inputs: vec![],
                outputs: vec!["raw".to_string()],
                params: src_params,
            },
            step("norm", "FeatureProcessor", &["raw"], &["normalized_data"]),
            step("print", "Printer", &["normalized_data"], &[]),
        ],
        http_mode: false,
    };
    let mut coord = Coordinator::new(&config, None).unwrap();
    let vectors = vec![
        vec![1.0, 2.0, 4.0, 8.0, 16.0],
        vec![5.0, 5.0, 5.0, 5.0, 10.0],
        vec![0.5, 1.0, 0.25, 2.0, 1.0],
        vec![9.0, 9.0, 9.0, 9.0, 9.0], // beyond the limit: never emitted
    ];
    let seed = generate(&mut coord, 0, &vectors);
    assert_eq!(seed.len(), 3);
    drive(&mut coord, seed);
    let got = printer_received(&coord, 2);
    assert_eq!(got.len(), 3);
    for (k, m) in got.iter().enumerate() {
        let input = &vectors[k];
        let max = input.iter().cloned().fold(f64::NAN, f64::max);
        let expected: Vec<f64> = input.iter().map(|x| x / max).collect();
        assert_eq!(from_bits(&m.data), expected);
        assert_eq!(m.id, k as u64 + 1);
        assert_eq!(m.node_id, "normalized_data");
    }
}

#[test]
fn scenario_batch_pooler_to_printer() {
    // src(batch_mode=true, batch_size=2) -> pooler(BatchId) -> printer: for
    // every two source emissions, the printer sees one emission of length 10.
    let mut src_params = Params::new();
    src_params.batch_mode = Some(true);
    src_params.batch_size = Some(2);
    src_params.limit = Some(4);
    let config = Config {
        steps: vec![
            StepConfig {
                name: "src".to_string(),
                node_type: "DataGenerator".to_string(),
                inputs: vec![],
                outputs: vec!["raw".to_string()],
                params: src_params,
            },
            step("pool", "BatchPooler", &["raw"], &["pooled"]),
            step("print", "Printer", &["pooled"], &[]),
        ],
        http_mode: false,
    };
    let mut coord = Coordinator::new(&config, None).unwrap();
    let vectors: Vec<Vec<f64>> = (0..4)
        .map(|k| (0..5).map(|j| (k * 5 + j) as f64).collect())
        .collect();
    let seed = generate(&mut coord, 0, &vectors);
    assert_eq!(seed.len(), 4);
    drive(&mut coord, seed);
    let got = printer_received(&coord, 2);
    assert_eq!(got.len(), 2);
    for m in &got {
        assert_eq!(m.data.len(), 10);
    }
    // Batches keep their members together, in insertion order.
    let first: Vec<f64> = vectors[0].iter().chain(vectors[1].iter()).cloned().collect();
    let second: Vec<f64> = vectors[2].iter().chain(vectors[3].iter()).cloned().collect();
    assert_eq!(from_bits(&got[0].data), first);
    assert_eq!(from_bits(&got[1].data), second);
    assert_eq!(got[0].id, 1); // batch ids start at one
    assert_eq!(got[1].id, 2);
}

fn split_join_config(join_mode: &str) -> Config {
    let mut join_params = Params::new();
    join_params.mode = Some(join_mode.to_string());
    let mut src_params = Params::new();
    src_params.limit = Some(3);
    Config {
        steps: vec![
            StepConfig {
                name: "src".to_string(),
                node_type: "DataGenerator".to_string(),
                inputs: vec![],
                outputs: vec!["raw".to_string()],
                params: src_params,
            },
            step("norm", "FeatureProcessor", &["raw"], &["normalized_data"]),
            step("enc", "FeatureProcessor", &["raw"], &["encoded_data"]),
            StepConfig {
                name: "join".to_string(),
                node_type: "StepJoinPoint".to_string(),
                inputs: vec!["normalized_data".to_string(), "encoded_data".to_string()],
                outputs: vec!["joined".to_string()],
                params: join_params,
            },
            step("print", "Printer", &["joined"], &[]),
        ],
        http_mode: false,
    }
}

#[test]
fn scenario_split_join_and() {
    // src -> split via two transforms -> join(AND) -> printer: printer data
    // length is the sum of the transform output lengths; id equals the
    // source id; every source emission contributes to exactly one join
    // emission keyed by its id.
    let config = split_join_config("AND");
    let mut coord = Coordinator::new(&config, None).unwrap();
    let vectors = vec![
        vec![1.0, 2.0, 4.0, 8.0, 16.0],
        vec![3.0, 6.0, 9.0, 12.0, 15.0],
        vec![2.0, 2.0, 2.0, 2.0, 4.0],
    ];
    let seed = generate(&mut coord, 0, &vectors);
    drive(&mut coord, seed);
    let got = printer_received(&coord, 4);
    assert_eq!(got.len(), 3);
    for (k, m) in got.iter().enumerate() {
        assert_eq!(m.id, k as u64 + 1);
        assert_eq!(m.data.len(), 10);
        // Declared join order: the normalized half first, the encoded half
        // second.
        let input = &vectors[k];
        let max = input.iter().cloned().fold(f64::NAN, f64::max);
        let normalized: Vec<f64> = input.iter().map(|x| x / max).collect();
        let encoded: Vec<f64> = input.iter().map(|x| x * x).collect();
        let expected: Vec<f64> = normalized.into_iter().chain(encoded.into_iter()).collect();
        assert_eq!(from_bits(&m.data), expected);
    }
}

#[test]
fn scenario_split_join_or() {
    // src -> split -> join(OR) -> printer: printer sees exactly one message
    // per source id; its data equals the first branch to arrive (here the
    // normalizer, declared first).
    let config = split_join_config("OR");
    let mut coord = Coordinator::new(&config, None).unwrap();
    let vectors = vec![
        vec![1.0, 2.0, 4.0, 8.0, 16.0],
        vec![3.0, 6.0, 9.0, 12.0, 15.0],
        vec![2.0, 2.0, 2.0, 2.0, 4.0],
    ];
    let seed = generate(&mut coord, 0, &vectors);
    drive(&mut coord, seed);
    let got = printer_received(&coord, 4);
    assert_eq!(got.len(), 3);
    for (k, m) in got.iter().enumerate() {
        assert_eq!(m.id, k as u64 + 1);
        let input = &vectors[k];
        let max = input.iter().cloned().fold(f64::NAN, f64::max);
        let expected: Vec<f64> = input.iter().map(|x| x / max).collect();
        assert_eq!(from_bits(&m.data), expected);
    }
}

#[test]
fn routing_fans_out_an_independent_copy_to_each_downstream() {
    let config = split_join_config("AND");
    let coord = Coordinator::new(&config, None).unwrap();
    // "raw" is consumed by both transforms, in declaration order.
    let targets = coord.route(&"raw".to_string());
    assert_eq!(targets, vec![1, 2]);
    // A dead output has no consumers.
    let nobody = coord.route(&"unheard_of".to_string());
    assert!(nobody.is_empty());
}

#[test]
fn request_response_sink_round_trip() {
    // For request/response mode with the degenerate graph http_input ->
    // sink, the injected features come back on the reply channel unchanged.
    let config = Config {
        steps: vec![step("http_output", "HttpOutput", &["http_input"], &[])],
        http_mode: true,
    };
    let registry = std::sync::Arc::new(dashmap::DashMap::new());
    let mut coord = Coordinator::new(&config, Some(registry.clone())).unwrap();

    let xs = vec![1.5f64, -2.25, 0.0, 42.0];
    let req_id: u64 = 77;
    let (tx, mut rx) = tokio::sync::oneshot::channel::<Vec<u64>>();
    registry.insert(req_id, tx);

    let m = ProcessMessage {
        id: req_id,
        node_id: "http_input".to_string(),
        data: to_bits(&xs),
        batch_id: Some(req_id),
        batch_total: Some(1),
        trace: actor_dag::step::Trace::new(),
    };
    let targets = coord.route(&m.node_id);
    assert_eq!(targets, vec![0]);
    match coord.handle_at(0, m) {
        Effect::Replied(SinkReply::Replied) => {}
        _ => panic!("the sink should have answered the waiting request"),
    }
    let answer = rx.try_recv().expect("the reply channel should hold the data");
    assert_eq!(from_bits(&answer), xs);
    // The registry entry was consumed.
    assert!(registry.get(&req_id).is_none());
}

#[test]
fn request_response_sink_reports_missing_request() {
    let config = Config {
        steps: vec![step("http_output", "HttpOutput", &["http_input"], &[])],
        http_mode: true,
    };
    let registry = std::sync::Arc::new(dashmap::DashMap::new());
    let mut coord = Coordinator::new(&config, Some(registry.clone())).unwrap();
    let m = ProcessMessage {
        id: 5,
        node_id: "http_input".to_string(),
        data: vec![1],
        batch_id: Some(5),
        batch_total: Some(1),
        trace: actor_dag::step::Trace::new(),
    };
    match coord.handle_at(0, m) {
        Effect::Replied(SinkReply::NoPending) => {}
        _ => panic!("nobody was waiting, so the sink should say so"),
    }
}

#[test]
fn request_response_sink_returns_data_when_requester_gone() {
    let config = Config {
        steps: vec![step("http_output", "HttpOutput", &["http_input"], &[])],
        http_mode: true,
    };
    let registry = std::sync::Arc::new(dashmap::DashMap::new());
    let mut coord = Coordinator::new(&config, Some(registry.clone())).unwrap();
    let (tx, rx) = tokio::sync::oneshot::channel::<Vec<u64>>();
    registry.insert(9, tx);
    drop(rx);
    let m = ProcessMessage {
        id: 9,
        node_id: "http_input".to_string(),
        data: vec![11, 22],
        batch_id: Some(9),
        batch_total: Some(1),
        trace: actor_dag::step::Trace::new(),
    };
    match coord.handle_at(0, m) {
        Effect::Replied(SinkReply::ReceiverGone(v)) => assert_eq!(v, vec![11, 22]),
        _ => panic!("the data should come back when the requester is gone"),
    }
}
