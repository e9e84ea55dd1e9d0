//! Verified core of the indexref file indexer: the node tree served to the
//! GUI, the diff between indexed and actual files, the importers' record
//! building, and the small decisions of the sync service.

pub mod config;
pub mod datetime;
pub mod diff_files;
pub mod env_config;
pub mod file_finder;
pub mod html;
pub mod http;
pub mod node_tree;
pub mod onetab;
pub mod paths;
pub mod pattern;
pub mod presentation;
pub mod record;
pub mod result_ext;
pub mod scrapbook;
pub mod single_file_z;
pub mod sources_config;
pub mod telegram;
pub mod text;
pub mod types;
pub mod urls;
pub mod watcher;
