pub mod config;
pub mod controller;
pub mod controller_types;
pub mod drift;
pub mod error;
pub mod event;
pub mod experiment_log;
pub mod export;
pub mod frame;
pub mod job;
pub mod lib_old;
pub mod logger;
pub mod machine;
pub mod machine_state;
pub mod mock_controller;
pub mod multi_pass;
pub mod nanonis;
pub mod nanonis_controller;
pub mod policy;
pub mod routine;
pub mod session;
pub mod spm_error;
pub mod text;
