use vstd::prelude::*;

pub mod text;
pub mod version;
pub mod types;
pub mod paths;
pub mod errors;
pub mod pip;
pub mod changeset;
pub mod markdown;
pub mod filters;
pub mod glob;
pub mod sorted;
pub mod semantic;
pub mod config;
pub mod config_document;
pub mod enrichment;
pub mod publish;
pub mod npm;
pub mod rebar3;
pub mod maven;
pub mod cargo;
pub mod manifest;
pub mod pypi;
pub mod tree;
pub mod parse;
pub mod offsets;
pub mod xml_layout;
pub mod json_layout;
pub mod toml_layout;
pub mod registry;
pub mod adapters;
pub mod order;
pub mod hex;
pub mod packagist;
pub mod prerelease;
pub mod discovery;
pub mod pom;
pub mod reactor;
pub mod composer;
pub mod git;

pub use order::topo_order;

verus! {
} // verus!
