//! Rules that keep files and folders in step.
pub mod atomic_copy;
pub mod backup_laws;
pub mod backups;
pub mod candidate_laws;
pub mod cleanup;
pub mod clock;
pub mod copy_laws;
pub mod document;
pub mod hashing;
pub mod ids;
pub mod json;
pub mod keyed;
pub mod listing;
pub mod load_laws;
pub mod logs;
pub mod matcher;
pub mod model_laws;
pub mod models;
pub mod ordering;
pub mod outcome;
pub mod path_laws;
pub mod paths;
pub mod purging;
pub mod report_laws;
pub mod rule_laws;
pub mod rules;
pub mod run_laws;
pub mod saving;
pub mod shell;
pub mod state;
pub mod state_laws;
pub mod store;
pub mod store_files;
pub mod sync_engine;
pub mod sync_laws;
pub mod text;
pub mod text_laws;
pub mod view_laws;
pub mod watch_laws;
pub mod watching;
