pub mod commits;
pub mod config;
pub mod documents;
pub mod install_pin;
pub mod key_path;
pub mod markdown;
pub mod migrate;
pub mod migrate_config;
pub mod migrate_output;
pub mod migrate_source_plan;
pub mod order;
pub mod outcome;
pub mod owned_files;
pub mod plan;
pub mod preconditions;
pub mod release;
pub mod render;
pub mod json_text;
pub mod release_state;
pub mod release_steps;
pub mod tag_shape;
pub mod tags;
pub mod text;
pub mod verdict;
pub mod version_plan;
pub mod versions;
pub mod views;
pub mod write_set;
