pub mod text;
pub mod names;
pub mod error;
pub mod semver;
pub mod vars;
pub mod command_text;
pub mod scan;
pub mod task_header;
pub mod task_file;
pub mod file_invariants;
pub mod runtime;
pub mod conditions;
pub mod values;
pub mod runner;
pub mod file_copy;
pub mod awaited;
pub mod formatter;
pub mod directive_info;
pub mod environment;
pub mod help_output;
pub mod version_file;
pub mod cli;
pub mod project_init;
pub mod lsp_analysis;
pub mod lsp_queries;
pub mod analysis_invariants;
pub mod watch;
pub mod layers;
