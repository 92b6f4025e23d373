pub mod config;
pub mod command_line;
pub mod config_override;
pub mod error;
pub mod laws;
pub mod model;
pub mod moment;
pub mod notify;
pub mod storage;
pub mod task_api;
pub mod text;
