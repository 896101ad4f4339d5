pub mod batch_pooler;
pub mod csv_reader;
pub mod data_generator;
pub mod feature_processor;
pub mod http_output;
pub mod ml_model;
pub mod printer;
pub mod py_feature_processor;
pub mod step_join_point;
