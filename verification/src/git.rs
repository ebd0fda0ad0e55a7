//! Vocabulary-as-code: where a vocabulary's git remote lives, and the concept-level changes a
//! review is written in.

use vstd::prelude::*;

use crate::text::{push_str, string_of};

verus! {

/// Where a vocabulary's git remote lives, if anywhere.
#[derive(Debug, Clone, PartialEq, Eq)]
pub enum RemoteKind {
    /// No remote: local git only. The air-gapped case.
    NoRemote,
    /// github.com.
    GitHubCloud,
    /// A self-hosted GitHub Enterprise Server at the given base URL.
    GitHubEnterprise(String),
}

impl RemoteKind {
    /// Whether pull-request workflows are available: every remote but none.
    pub fn supports_pull_requests(&self) -> (supported: bool)
        ensures
            supported == !(self is NoRemote),
    {
        match self {
            RemoteKind::NoRemote => false,
            _ => true,
        }
    }
}

/// A concept-level change, for rendering a human-readable diff.
#[derive(Debug, Clone, PartialEq, Eq)]
pub enum ConceptChange {
    /// A concept was added.
    Added {
        /// The concept's IRI.
        iri: String,
        /// Its preferred label at the time of the change.
        pref_label: String,
    },
    /// A concept's preferred label changed.
    Relabelled {
        /// The concept's IRI.
        iri: String,
        /// The previous preferred label.
        from: String,
        /// The new preferred label.
        to: String,
    },
    /// A concept moved in the hierarchy.
    Moved {
        /// The concept's IRI.
        iri: String,
        /// The previous broader concept, if any.
        from_broader: Option<String>,
        /// The new broader concept, if any.
        to_broader: Option<String>,
    },
    /// A concept was deprecated. Never deleted: auditors need the trail.
    Deprecated {
        /// The concept's IRI.
        iri: String,
        /// The concept superseding it, if one was named.
        replaced_by: Option<String>,
    },
}

/// Errors raised by git integration.
#[derive(Debug, Clone, PartialEq, Eq)]
pub enum GitError {
    /// The working tree is not a git repository.
    NotARepository(String),
    /// A merge conflict needs human resolution.
    Conflict(String),
    /// The remote API rejected the request or was unreachable.
    Remote(String),
}

/// What a git error says.
pub open spec fn git_message(error: GitError) -> Seq<char> {
    match error {
        GitError::NotARepository(what) => "not a git repository: "@ + what@,
        GitError::Conflict(what) => "merge conflict in "@ + what@,
        GitError::Remote(what) => "remote operation failed: "@ + what@,
    }
}

impl GitError {
    /// What the error says.
    pub fn to_string(&self) -> (message: String)
        ensures
            message@ == git_message(*self),
    {
        let (mut out, what) = match self {
            GitError::NotARepository(what) => (string_of("not a git repository: "), what),
            GitError::Conflict(what) => (string_of("merge conflict in "), what),
            GitError::Remote(what) => (string_of("remote operation failed: "), what),
        };
        push_str(&mut out, what.as_str());
        out
    }
}

} // verus!
