//! The IRI-minting policy of a vocabulary: what `openbiz policy` shows of it.

use vstd::prelude::*;

use crate::cli::{debug_quoted, quoted};
use crate::mint::{
    compared_text, compared_with_convention, policy_line, policy_line_text, PatternShown, Suggestion,
};
use crate::text::{push_str, string_of};

verus! {

/// A minting pattern recorded for a vocabulary, with who recorded it and when.
#[derive(Debug, PartialEq, Eq)]
pub struct RecordedPolicy {
    /// The pattern as it was recorded.
    pub pattern: String,
    /// The pattern as this build reads it, or why it cannot.
    pub parsed: Result<PatternShown, String>,
    /// Who recorded it.
    pub recorded_by: String,
    /// When, as reports write it.
    pub recorded_at: String,
}

/// "  recorded by `by` at `at`\n".
pub open spec fn recorded_by_text(policy: RecordedPolicy) -> Seq<char> {
    "  recorded by "@ + policy.recorded_by@ + " at "@ + policy.recorded_at@ + "\n"@
}

/// What is said of a recorded policy: the pattern, its trade, who recorded it, and how it stands
/// against the concepts; or, for one this build cannot read, the text and why.
pub open spec fn recorded_text(policy: RecordedPolicy, suggested: Result<Suggestion, String>) -> Seq<
    char,
> {
    match policy.parsed {
        Ok(pattern) => "\nrecorded: "@ + pattern.text@ + "\n"@ + policy_line_text(pattern.readable)
            + recorded_by_text(policy) + compared_text(pattern, suggested, false)
            + "  every producer mints under this: an import, a match against another vocabulary, and a curator at this command line all get the same answer\n"@,
        Err(error) => "\nrecorded, and unusable: "@ + debug_quoted(policy.pattern@)
            + "\n  this build cannot read it: "@ + error@ + "\n"@ + recorded_by_text(policy)
            + "  nothing can be minted for this vocabulary until a pattern this build accepts is recorded\n"@,
    }
}

/// What is said when nothing is recorded: what the concepts suggest, or why they suggest nothing,
/// and what an inferred pattern costs.
pub open spec fn unrecorded_text(graph: Seq<char>, suggested: Result<Suggestion, String>) -> Seq<
    char,
> {
    "\nnothing is recorded, so `openbiz mint` reads a pattern off this vocabulary's own concepts each time it runs\n"@
        + match suggested {
        Ok(suggestion) => "  its own concepts suggest "@ + suggestion.pattern.text@ + "\n"@
            + policy_line_text(suggestion.pattern.readable),
        Err(error) => "  and they suggest nothing: "@ + error@
            + ". Nothing can be minted here until a pattern is recorded or given with --pattern\n"@,
    }
        + "  an inferred pattern is a reading of the concepts as they stand, so it moves as they grow: a vocabulary that acquires concepts in a second namespace can change its own convention part-way through, and the IRIs on both sides of that are already permanent\n"@
        + "  record one with: openbiz policy "@ + graph + " --pattern <p>\n"@
}

/// What `openbiz policy` shows for a vocabulary.
pub open spec fn policy_text(
    graph: Seq<char>,
    recorded: Option<RecordedPolicy>,
    suggested: Result<Suggestion, String>,
) -> Seq<char> {
    "the IRI-minting policy for "@ + graph + "\n"@ + match recorded {
        Some(policy) => recorded_text(policy, suggested),
        None => unrecorded_text(graph, suggested),
    }
}

fn push_recorded_by(out: &mut String, policy: &RecordedPolicy)
    ensures
        final(out)@ == old(out)@ + recorded_by_text(*policy),
{
    push_str(out, "  recorded by ");
    push_str(out, policy.recorded_by.as_str());
    push_str(out, " at ");
    push_str(out, policy.recorded_at.as_str());
    push_str(out, "\n");
    assert(out@ =~= old(out)@ + recorded_by_text(*policy));
}

fn push_recorded(out: &mut String, policy: &RecordedPolicy, suggested: &Result<Suggestion, String>)
    ensures
        final(out)@ == old(out)@ + recorded_text(*policy, *suggested),
{
    match &policy.parsed {
        Ok(pattern) => {
            push_str(out, "\nrecorded: ");
            push_str(out, pattern.text.as_str());
            push_str(out, "\n");
            push_str(out, policy_line(pattern.readable));
            push_recorded_by(out, policy);
            let compared = compared_with_convention(pattern, suggested, false);
            push_str(out, compared.as_str());
            push_str(
                out,
                "  every producer mints under this: an import, a match against another vocabulary, and a curator at this command line all get the same answer\n",
            );
        },
        Err(error) => {
            push_str(out, "\nrecorded, and unusable: ");
            let written = quoted(policy.pattern.as_str());
            push_str(out, written.as_str());
            push_str(out, "\n  this build cannot read it: ");
            push_str(out, error.as_str());
            push_str(out, "\n");
            push_recorded_by(out, policy);
            push_str(
                out,
                "  nothing can be minted for this vocabulary until a pattern this build accepts is recorded\n",
            );
        },
    }
    assert(out@ =~= old(out)@ + recorded_text(*policy, *suggested));
}

fn push_unrecorded(out: &mut String, graph: &str, suggested: &Result<Suggestion, String>)
    ensures
        final(out)@ == old(out)@ + unrecorded_text(graph@, *suggested),
{
    push_str(
        out,
        "\nnothing is recorded, so `openbiz mint` reads a pattern off this vocabulary's own concepts each time it runs\n",
    );
    match suggested {
        Ok(suggestion) => {
            push_str(out, "  its own concepts suggest ");
            push_str(out, suggestion.pattern.text.as_str());
            push_str(out, "\n");
            push_str(out, policy_line(suggestion.pattern.readable));
        },
        Err(error) => {
            push_str(out, "  and they suggest nothing: ");
            push_str(out, error.as_str());
            push_str(
                out,
                ". Nothing can be minted here until a pattern is recorded or given with --pattern\n",
            );
        },
    }
    push_str(
        out,
        "  an inferred pattern is a reading of the concepts as they stand, so it moves as they grow: a vocabulary that acquires concepts in a second namespace can change its own convention part-way through, and the IRIs on both sides of that are already permanent\n",
    );
    push_str(out, "  record one with: openbiz policy ");
    push_str(out, graph);
    push_str(out, " --pattern <p>\n");
    assert(out@ =~= old(out)@ + unrecorded_text(graph@, *suggested));
}

/// What `openbiz policy <graph>` shows: the pattern recorded for the vocabulary, its trade, who
/// recorded it and how it stands against the vocabulary's own concepts (or, for a recorded pattern
/// this build cannot read, the text and why); or, when nothing is recorded, what the concepts
/// suggest, what an inferred pattern costs, and how to record one.
pub fn show(graph: &str, recorded: &Option<RecordedPolicy>, suggested: &Result<Suggestion, String>) -> (text:
    String)
    ensures
        text@ == policy_text(graph@, *recorded, *suggested),
{
    let mut out = string_of("the IRI-minting policy for ");
    push_str(&mut out, graph);
    push_str(&mut out, "\n");
    match recorded {
        Some(policy) => push_recorded(&mut out, policy, suggested),
        None => push_unrecorded(&mut out, graph, suggested),
    }
    assert(out@ =~= policy_text(graph@, *recorded, *suggested));
    out
}

/// What recording a policy displaced: the pattern before it, or nothing.
pub open spec fn replaced_text(replaced: Option<RecordedPolicy>) -> Seq<char> {
    match replaced {
        Some(previous) => "\nthis replaced "@ + debug_quoted(previous.pattern@) + ", recorded by "@
            + previous.recorded_by@ + " at "@ + previous.recorded_at@
            + ". That earlier pattern is no longer kept anywhere: the IRIs already minted under it are the record of it\n"@,
        None => "\nthis vocabulary had no recorded pattern before now\n"@,
    }
}

/// What `openbiz policy <graph> --pattern <p>` says once it has recorded `pattern`.
pub open spec fn recorded_report_text(
    graph: Seq<char>,
    pattern: PatternShown,
    policy: RecordedPolicy,
    replaced: Option<RecordedPolicy>,
    suggested: Result<Suggestion, String>,
) -> Seq<char> {
    "recorded the IRI-minting policy for "@ + graph + "\n\npattern: "@ + pattern.text@ + "\n"@
        + policy_line_text(pattern.readable) + recorded_by_text(policy) + compared_text(
        pattern,
        suggested,
        true,
    ) + replaced_text(replaced)
        + "\nnothing already minted changed: a policy governs the next mint, and an IRI that changes is a different concept. Every producer reads this one \u{2014} an import, a match against another vocabulary, and a curator running `openbiz mint`\n"@
}

fn push_replaced(out: &mut String, replaced: &Option<RecordedPolicy>)
    ensures
        final(out)@ == old(out)@ + replaced_text(*replaced),
{
    match replaced {
        Some(previous) => {
            push_str(out, "\nthis replaced ");
            let written = quoted(previous.pattern.as_str());
            push_str(out, written.as_str());
            push_str(out, ", recorded by ");
            push_str(out, previous.recorded_by.as_str());
            push_str(out, " at ");
            push_str(out, previous.recorded_at.as_str());
            push_str(
                out,
                ". That earlier pattern is no longer kept anywhere: the IRIs already minted under it are the record of it\n",
            );
        },
        None => push_str(out, "\nthis vocabulary had no recorded pattern before now\n"),
    }
    assert(out@ =~= old(out)@ + replaced_text(*replaced));
}

/// What `openbiz policy <graph> --pattern <p>` says once it has recorded `pattern`: the pattern
/// and its trade, who recorded it, how it stands against the vocabulary's own concepts, what it
/// displaced (or that nothing was recorded before), and that nothing already minted changed.
pub fn recorded_report(
    graph: &str,
    pattern: &PatternShown,
    policy: &RecordedPolicy,
    replaced: &Option<RecordedPolicy>,
    suggested: &Result<Suggestion, String>,
) -> (text: String)
    ensures
        text@ == recorded_report_text(graph@, *pattern, *policy, *replaced, *suggested),
{
    let mut out = string_of("recorded the IRI-minting policy for ");
    push_str(&mut out, graph);
    push_str(&mut out, "\n\npattern: ");
    push_str(&mut out, pattern.text.as_str());
    push_str(&mut out, "\n");
    push_str(&mut out, policy_line(pattern.readable));
    push_recorded_by(&mut out, policy);
    let compared = compared_with_convention(pattern, suggested, true);
    push_str(&mut out, compared.as_str());
    push_replaced(&mut out, replaced);
    push_str(
        &mut out,
        "\nnothing already minted changed: a policy governs the next mint, and an IRI that changes is a different concept. Every producer reads this one \u{2014} an import, a match against another vocabulary, and a curator running `openbiz mint`\n",
    );
    assert(out@ =~= recorded_report_text(graph@, *pattern, *policy, *replaced, *suggested));
    out
}

} // verus!
