use actor_dag::config::{Config, StepConfig};
use actor_dag::step::Params;
use actor_dag::validator::{has_cycles, validate_config, ValidationError};

fn step(name: &str, node_type: &str, inputs: &[&str], outputs: &[&str]) -> StepConfig {
    StepConfig {
        name: name.to_string(),
        node_type: node_type.to_string(),
        inputs: inputs.iter().map(|s| s.to_string()).collect(),
        outputs: outputs.iter().map(|s| s.to_string()).collect(),
        params: Params::new(),
    }
}

fn linear_config() -> Config {
    Config {
        steps: vec![
            step("src", "DataGenerator", &[], &["raw"]),
            step("norm", "FeatureProcessor", &["raw"], &["normalized_data"]),
            step("print", "Printer", &["normalized_data"], &[]),
        ],
        http_mode: false,
    }
}

#[test]
fn accepts_linear_graph() {
    assert!(validate_config(&linear_config()).is_ok());
}

#[test]
fn rejects_duplicate_step_names() {
    let mut config = linear_config();
    config.steps[1].name = "src".to_string();
    let errors = validate_config(&config).unwrap_err();
    assert!(errors
        .iter()
        .any(|e| matches!(e, ValidationError::DuplicateName { name } if name == "src")));
}

#[test]
fn rejects_missing_producer() {
    let mut config = linear_config();
    config.steps[1].inputs = vec!["nonexistent".to_string()];
    let errors = validate_config(&config).unwrap_err();
    assert!(errors.iter().any(|e| matches!(
        e,
        ValidationError::MissingProducer { step, input }
            if step == "norm" && input == "nonexistent"
    )));
}

#[test]
fn rejects_multiple_sinks() {
    let mut config = linear_config();
    config
        .steps
        .push(step("print2", "Printer", &["normalized_data"], &[]));
    let errors = validate_config(&config).unwrap_err();
    assert!(errors
        .iter()
        .any(|e| matches!(e, ValidationError::WrongSinkCount { found: 2 })));
}

#[test]
fn rejects_missing_source() {
    // Two transforms feeding each other leave no step without inputs.
    let config = Config {
        steps: vec![
            step("norm", "FeatureProcessor", &["raw"], &["normalized_data"]),
            step("enc", "FeatureProcessor", &["normalized_data"], &["raw"]),
        ],
        http_mode: false,
    };
    let errors = validate_config(&config).unwrap_err();
    assert!(errors
        .iter()
        .any(|e| matches!(e, ValidationError::WrongSourceCount { found: 0 })));
}

#[test]
fn rejects_self_loop() {
    let config = Config {
        steps: vec![
            step("src", "DataGenerator", &[], &["raw"]),
            step("loopy", "FeatureProcessor", &["raw", "echo"], &["echo"]),
            step("print", "Printer", &["echo"], &[]),
        ],
        http_mode: false,
    };
    assert!(has_cycles(&config));
    let errors = validate_config(&config).unwrap_err();
    assert!(errors
        .iter()
        .any(|e| matches!(e, ValidationError::CycleDetected)));
}

#[test]
fn rejects_two_step_cycle() {
    let config = Config {
        steps: vec![
            step("src", "DataGenerator", &[], &["raw"]),
            step("a", "FeatureProcessor", &["raw", "b_out"], &["a_out"]),
            step("b", "FeatureProcessor", &["a_out"], &["b_out"]),
            step("print", "Printer", &["a_out"], &[]),
        ],
        http_mode: false,
    };
    assert!(has_cycles(&config));
    let errors = validate_config(&config).unwrap_err();
    assert!(errors
        .iter()
        .any(|e| matches!(e, ValidationError::CycleDetected)));
}

#[test]
fn accepts_diamond_as_acyclic() {
    let config = Config {
        steps: vec![
            step("src", "DataGenerator", &[], &["raw"]),
            step("a", "FeatureProcessor", &["raw"], &["a_out"]),
            step("b", "FeatureProcessor", &["raw"], &["b_out"]),
            step("join", "StepJoinPoint", &["a_out", "b_out"], &["joined"]),
            step("print", "Printer", &["joined"], &[]),
        ],
        http_mode: false,
    };
    assert!(!has_cycles(&config));
    assert!(validate_config(&config).is_ok());
}

#[test]
fn rejects_batchid_pooler_without_batch_source() {
    let mut pooler_params = Params::new();
    pooler_params.mode = Some("BatchId".to_string());
    let config = Config {
        steps: vec![
            step("src", "DataGenerator", &[], &["raw"]),
            StepConfig {
                name: "pool".to_string(),
                node_type: "BatchPooler".to_string(),
                inputs: vec!["raw".to_string()],
                outputs: vec!["pooled".to_string()],
                params: pooler_params,
            },
            step("print", "Printer", &["pooled"], &[]),
        ],
        http_mode: false,
    };
    let errors = validate_config(&config).unwrap_err();
    assert!(errors.iter().any(|e| matches!(
        e,
        ValidationError::PoolerWithoutBatchSource { pooler } if pooler == "pool"
    )));
}

#[test]
fn accepts_batchid_pooler_with_batch_source() {
    let mut src_params = Params::new();
    src_params.batch_mode = Some(true);
    src_params.batch_size = Some(2);
    let mut pooler_params = Params::new();
    pooler_params.mode = Some("BatchId".to_string());
    let config = Config {
        steps: vec![
            StepConfig {
                name: "src".to_string(),
                node_type: "DataGenerator".to_string(),
                inputs: vec![],
                outputs: vec!["raw".to_string()],
                params: src_params,
            },
            StepConfig {
                name: "pool".to_string(),
                node_type: "BatchPooler".to_string(),
                inputs: vec!["raw".to_string()],
                outputs: vec!["pooled".to_string()],
                params: pooler_params,
            },
            step("print", "Printer", &["pooled"], &[]),
        ],
        http_mode: false,
    };
    assert!(validate_config(&config).is_ok());
}

#[test]
fn reports_every_violation_not_only_the_first() {
    // Duplicate names, a missing producer, two sinks and a cycle at once.
    let config = Config {
        steps: vec![
            step("src", "DataGenerator", &[], &["raw"]),
            step("t", "FeatureProcessor", &["raw", "ghostly", "loop_out"], &["loop_out"]),
            step("print", "Printer", &["loop_out"], &[]),
            step("print", "Printer", &["loop_out"], &[]),
        ],
        http_mode: false,
    };
    let errors = validate_config(&config).unwrap_err();
    assert!(errors
        .iter()
        .any(|e| matches!(e, ValidationError::DuplicateName { name } if name == "print")));
    assert!(errors.iter().any(|e| matches!(
        e,
        ValidationError::MissingProducer { step, input } if step == "t" && input == "ghostly"
    )));
    assert!(errors
        .iter()
        .any(|e| matches!(e, ValidationError::WrongSinkCount { found: 2 })));
    assert!(errors
        .iter()
        .any(|e| matches!(e, ValidationError::CycleDetected)));
}

#[test]
fn http_mode_allows_one_unproduced_input() {
    let config = Config {
        steps: vec![
            step("norm", "FeatureProcessor", &["http_input"], &["normalized_data"]),
            step("out", "HttpOutput", &["normalized_data"], &[]),
        ],
        http_mode: true,
    };
    assert!(validate_config(&config).is_ok());
}

#[test]
fn http_mode_rejects_two_unproduced_inputs() {
    let config = Config {
        steps: vec![
            step("norm", "FeatureProcessor", &["http_input", "mystery"], &["normalized_data"]),
            step("out", "HttpOutput", &["normalized_data"], &[]),
        ],
        http_mode: true,
    };
    let errors = validate_config(&config).unwrap_err();
    assert!(errors
        .iter()
        .any(|e| matches!(e, ValidationError::TooManyUnproduced { found: 2 })));
}
