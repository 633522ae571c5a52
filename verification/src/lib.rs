//! The decisions behind a small family of personal command-line tools.

pub mod archive;
pub mod ascii;
pub mod building;
pub mod catalog;
pub mod commands;
pub mod config_paths;
pub mod dates;
pub mod decoding;
pub mod digits;
pub mod discovery;
pub mod exe_names;
pub mod graph;
pub mod installing;
pub mod layout;
pub mod listing;
pub mod lowercase;
pub mod manifest;
pub mod manifest_laws;
pub mod matching;
pub mod nuspec;
pub mod order;
pub mod package;
pub mod package_laws;
pub mod path_laws;
pub mod path_order;
pub mod paths;
pub mod plan_order_laws;
pub mod plan_text;
pub mod planner;
pub mod planner_laws;
pub mod platform;
pub mod prefixes;
pub mod pushing;
pub mod ranking;
pub mod reaper;
pub mod record_laws;
pub mod renumbering;
pub mod reports;
pub mod repos;
pub mod selection;
pub mod sorting;
pub mod spaces;
pub mod tables;
pub mod text;
pub mod text_map;
pub mod tool_installs;
pub mod tool_versions;
pub mod toolctl;
pub mod upload_laws;
pub mod upload_options;
pub mod uploads;
pub mod version;
pub mod xml;
pub mod xml_document;
