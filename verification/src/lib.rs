//! Library for a desktop utility that lists, annotates, and deletes locally
//! installed language-model artifacts managed by an external runtime CLI.
//!
//! The library holds the logic worth checking: parsing the runtime's tabular
//! listing into records, classifying each record by capability, age,
//! liberation status and duplicate status, and maintaining a small persisted
//! preference file.  Process invocation and file I/O stay outside, handing
//! plain values in and out.

pub mod classify;
pub mod config;
pub mod model;
pub mod num;
pub mod parse;
pub mod session;
pub mod text;
pub mod webui;

pub use classify::{
    analyze_model_variants, determine_capabilities, get_age_category, get_model_base_name,
    get_model_params, is_liberated_model, is_special_variant,
};
pub use config::{AppConfig, ConfigError, ConfigStore, NameSet, default_config};
pub use model::{AgeCategory, Capability, DeletionResult, ModelData, UsageInfo};
pub use num::{i64_to_string, parse_i32, parse_i64, u64_to_string};
pub use parse::parse_ollama_output;
pub use session::{
    overlay_session_flags, process_listing, record_delete_outcome, replace_starred,
    starred_name_list, toggle_star,
};
pub use text::contains_sub;
pub use webui::{
    OpenWebUIConfig, clean_model_name_for_matching, format_elapsed, format_last_used_time,
    get_privacy_notice, is_webui_container_name,
};
