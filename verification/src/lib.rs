//! OpenBiz: the verified core of a self-hosted taxonomy, ontology and thesaurus manager.

pub mod git;
pub mod text;
pub mod skos;
pub mod discovery;
pub mod local;
pub mod accept;
pub mod config;
pub mod cli;
pub mod export;
pub mod api;
pub mod owl;
pub mod deprecate;
pub mod reinstate;
pub mod merge;
pub mod mint;
pub mod integrity;
pub mod inspect;
pub mod paths;
pub mod policy;
pub mod search;
pub mod justifications;
