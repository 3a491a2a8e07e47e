pub mod text;
pub mod config_file;
pub mod config_law;
pub mod stats;
pub mod progress;
pub mod selection;
pub mod targets;
pub mod files;
pub mod merger;
pub mod display;
pub mod settings;
pub mod util;
pub mod hybrid;
pub mod paths;
pub mod translator;
pub mod interaction;
pub mod verification;
pub mod workflow;
pub mod builder;
pub mod file_flow;
pub mod errors;
pub mod code_fix;
pub mod git;
