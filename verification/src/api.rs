//! The shapes the HTTP API answers in: the contract between the server and the interface.
//!
//! Free of storage and reasoning concerns, so the contract stays stable while the engines behind
//! it change. How each is written on the wire is decided where it is serialised.

use vstd::prelude::*;

use crate::text::string_of;

verus! {

/// The version of this build, as the crate metadata records it.
pub const CRATE_VERSION: &'static str = "0.1.0";

/// Health report returned by `GET /healthz`.
#[derive(Debug, Clone, PartialEq, Eq)]
pub struct Health {
    /// `"ok"` when the server is able to serve requests.
    pub status: String,
    /// The server's crate version.
    pub version: String,
}

impl Health {
    /// A healthy report stamped with the crate version.
    pub fn ok() -> (health: Health)
        ensures
            health.status@ == "ok"@,
            health.version@ == CRATE_VERSION@,
    {
        Health { status: string_of("ok"), version: string_of(CRATE_VERSION) }
    }
}

/// How a named graph is used, as it appears on the wire. A type of its own rather than the
/// store's, so that a new kind in the store has to be given a name on the wire on purpose.
#[derive(Debug, Clone, Copy, PartialEq, Eq, PartialOrd, Ord, Hash)]
pub enum GraphKind {
    /// A user-authored vocabulary.
    Vocabulary,
    /// OpenBiz's own metadata. Not a vocabulary, and never presented as one.
    System,
    /// Materialised inferences, derived rather than asserted.
    Inferred,
    /// The staged statements of a proposed change, not yet part of any vocabulary.
    Candidate,
}

/// One entry in the graph registry.
#[derive(Debug, Clone, PartialEq, Eq)]
pub struct GraphSummary {
    /// The graph's IRI.
    pub iri: String,
    /// What the graph holds.
    pub kind: GraphKind,
}

/// The graph registry, as returned by `GET /api/graphs`: every registered graph, OpenBiz's own
/// included, ordered by IRI.
#[derive(Debug, Clone, PartialEq, Eq)]
pub struct GraphList {
    /// Every registered graph, ordered by IRI.
    pub graphs: Vec<GraphSummary>,
}

/// One serialisation `GET /api/export` can produce, as advertised by `GET /api/export/formats`.
#[derive(Debug, Clone, PartialEq, Eq)]
pub struct ExportFormat {
    /// The value to pass as `?format=`.
    pub token: String,
    /// The name to show a human.
    pub label: String,
    /// The IANA media type, also accepted in `Accept`.
    pub media_type: String,
    /// The conventional file extension, without a dot.
    pub file_extension: String,
    /// Whether the syntax can record which graph the statements belong to.
    pub records_graph_names: bool,
}

/// Every serialisation this build can export, in the order the interface should offer them. The
/// first entry is the default.
#[derive(Debug, Clone, PartialEq, Eq)]
pub struct ExportFormats {
    /// The formats, most readable first.
    pub formats: Vec<ExportFormat>,
}

/// One SPARQL query-results serialisation the SPARQL endpoint can write.
#[derive(Debug, Clone, PartialEq, Eq)]
pub struct ResultsFormat {
    /// The value to pass as `?format=`.
    pub token: String,
    /// The name to show a human.
    pub label: String,
    /// The IANA media type, also accepted in `Accept`.
    pub media_type: String,
    /// The conventional file extension, without a dot.
    pub file_extension: String,
    /// Whether the syntax records what kind of RDF term each binding is, including its language
    /// tag and datatype. False for CSV, which loses both silently.
    pub preserves_term_detail: bool,
}

/// Every query-results serialisation this build can write, in the order to offer them. The first
/// entry is the default.
#[derive(Debug, Clone, PartialEq, Eq)]
pub struct ResultsFormats {
    /// The formats, least lossy first.
    pub formats: Vec<ResultsFormat>,
}

/// The body of any failed API response: one shape for every error, written for the person
/// reading it.
#[derive(Debug, Clone, PartialEq, Eq)]
pub struct ApiError {
    /// What went wrong, in words a human can act on.
    pub message: String,
}

impl ApiError {
    /// An error carrying `message`.
    pub fn new(message: &str) -> (error: ApiError)
        ensures
            error.message@ == message@,
    {
        ApiError { message: string_of(message) }
    }
}

} // verus!
