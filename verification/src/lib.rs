use vstd::prelude::*;

pub mod defaults;
pub mod text;
pub mod num;
pub mod data;
pub mod serialization;
pub mod change_point;
pub mod git;
pub mod filter;
pub mod parsers;
pub mod stats;
pub mod reporting_config;
pub mod reporting;
pub mod config;
pub mod config_cmd;
pub mod size_ops;
pub mod status;
pub mod reset;
pub mod git_interop;
pub mod converters;
pub mod audit;
pub mod measurement_retrieval;
pub mod measurement_storage;
pub mod section_plan;
pub mod cli;
pub mod import;
pub mod study;

verus! {
}
