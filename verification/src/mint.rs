//! Minting a concept IRI: what its report says about the discovery pass that preceded it.
//!
//! A reader has to be able to tell "this term is not in the organisation" from "one store was
//! read and nothing else was asked", so every source consulted is listed, and one that could not
//! be reached is said to be unavailable rather than silently absent.

use vstd::prelude::*;

use crate::cli::{debug_quoted, quoted};
use crate::discovery::{exact_of, related_of, Consulted, Discovered, Match, Outcome};
use crate::justifications::{listed_lines, push_listed, JustificationRecord};
use crate::policy::RecordedPolicy;
use crate::skos::{node_same, node_written, LabelKind, Node};
use crate::text::{decimal, push_count, push_str, same_text, string_of};

verus! {

/// How the matching was done, for a reader deciding how far to trust an empty answer.
pub const MATCHING_NOTE: &'static str = "matched over every label of every kind, in any language, anywhere inside the label, ignoring case but not accents, spelling, or Unicode normalisation\n";

/// What was not consulted, so that a reader does not take this store for the organisation.
pub const UNCONSULTED_NOTE: &'static str = "no peer, no data catalog, and no public registry was consulted: this build has no connector for one (adr/0003 §2, Phase 12), so a concept that exists only outside this store has not been seen\n";

/// How many of `matches` are blank nodes, which no justification record can name.
pub open spec fn blank_count(matches: Seq<Match>) -> nat
    decreases matches.len(),
{
    if matches.len() == 0 {
        0
    } else {
        blank_count(matches.drop_last()) + if matches.last().resource is Blank {
            1nat
        } else {
            0nat
        }
    }
}

proof fn lemma_blank_count_bounded(matches: Seq<Match>)
    ensures
        blank_count(matches) <= matches.len(),
    decreases matches.len(),
{
    if matches.len() > 0 {
        lemma_blank_count_bounded(matches.drop_last());
    }
}

/// How many listed matches could not be named in a justification record, because they are
/// blank nodes.
pub fn unnameable(found: &Discovered) -> (count: usize)
    ensures
        count == blank_count(found.listed()),
{
    let matches = found.matches();
    let mut count: usize = 0;
    let mut i: usize = 0;
    while i < matches.len()
        invariant
            i <= matches@.len(),
            count == blank_count(matches@.take(i as int)),
        decreases matches@.len() - i,
    {
        proof {
            assert(matches@.take(i + 1).drop_last() =~= matches@.take(i as int));
            lemma_blank_count_bounded(matches@.take(i as int));
        }
        match &matches[i].resource {
            Node::Blank(_) => {
                count = count + 1;
            },
            Node::Iri(_) => {},
        }
        i = i + 1;
    }
    proof {
        assert(matches@.take(i as int) =~= matches@);
    }
    count
}

/// What one source's line says: what it looked at and what it found, or that it could not be
/// reached and why.
pub open spec fn entry_line(entry: Consulted) -> Seq<char> {
    match entry.outcome {
        Outcome::Answered { matched, searched, labels_read } => "  "@ + entry.source@ + " — "@
            + searched@ + ", "@ + decimal(labels_read as nat) + " label(s) read, "@ + decimal(
            matched as nat,
        ) + " match(es)\n"@,
        Outcome::Unavailable { reason } => "  "@ + entry.source@ + " — UNAVAILABLE: "@ + reason@
            + ". Nothing above says this term is not there; it says it was not looked for\n"@,
    }
}

/// Every source's line, in order.
pub open spec fn entry_lines(entries: Seq<Consulted>) -> Seq<char>
    decreases entries.len(),
{
    if entries.len() == 0 {
        seq![]
    } else {
        entry_lines(entries.drop_last()) + entry_line(entries.last())
    }
}

/// The whole account of a consultation record.
pub open spec fn consulted_text(entries: Seq<Consulted>) -> Seq<char> {
    "\ndiscovery consulted "@ + decimal(entries.len()) + " source(s):\n"@ + entry_lines(entries)
        + MATCHING_NOTE@ + UNCONSULTED_NOTE@
}

/// Appends one source's line to `out`.
fn push_entry(out: &mut String, entry: &Consulted)
    ensures
        final(out)@ == old(out)@ + entry_line(*entry),
{
    push_str(out, "  ");
    push_str(out, entry.source.as_str());
    match &entry.outcome {
        Outcome::Answered { matched, searched, labels_read } => {
            push_str(out, " — ");
            push_str(out, searched.as_str());
            push_str(out, ", ");
            push_count(out, *labels_read);
            push_str(out, " label(s) read, ");
            push_count(out, *matched);
            push_str(out, " match(es)\n");
        },
        Outcome::Unavailable { reason } => {
            push_str(out, " — UNAVAILABLE: ");
            push_str(out, reason.as_str());
            push_str(
                out,
                ". Nothing above says this term is not there; it says it was not looked for\n",
            );
        },
    }
    proof {
        assert(final(out)@ =~= old(out)@ + entry_line(*entry));
    }
}

/// Which sources answered, what each looked at, and which could not be reached, over a
/// consultation record; then how the matching was done and what was not consulted. Never
/// shortened when everything went well.
pub fn consulted_entries(entries: &[Consulted]) -> (text: String)
    ensures
        text@ == consulted_text(entries@),
{
    let mut out = string_of("\ndiscovery consulted ");
    push_count(&mut out, entries.len());
    push_str(&mut out, " source(s):\n");
    let ghost head = out@;
    let mut i: usize = 0;
    while i < entries.len()
        invariant
            i <= entries@.len(),
            out@ == head + entry_lines(entries@.take(i as int)),
        decreases entries@.len() - i,
    {
        proof {
            assert(entries@.take(i + 1).drop_last() =~= entries@.take(i as int));
        }
        push_entry(&mut out, &entries[i]);
        i = i + 1;
        proof {
            assert(out@ =~= head + entry_lines(entries@.take(i as int)));
        }
    }
    push_str(&mut out, MATCHING_NOTE);
    push_str(&mut out, UNCONSULTED_NOTE);
    proof {
        assert(entries@.take(i as int) =~= entries@);
        assert(out@ =~= consulted_text(entries@));
    }
    out
}

/// The account of the sources one discovery pass consulted.
pub fn consulted(found: &Discovered) -> (text: String)
    ensures
        text@ == consulted_text(found.asked()),
{
    consulted_entries(found.consulted())
}

/// A minting pattern as a report shows it: as it is written, and whether its local names come from
/// labels.
#[derive(Debug, Clone, PartialEq, Eq)]
pub struct PatternShown {
    /// The pattern as it is written.
    pub text: String,
    /// Its local names come from the label (a readable IRI) rather than meaning nothing (an
    /// opaque one).
    pub readable: bool,
}

/// What a vocabulary's own concepts show about how it names things.
#[derive(Debug, Clone, PartialEq, Eq)]
pub struct Evidence {
    /// How many concepts there are.
    pub concepts: usize,
    /// The namespace most of them are in.
    pub namespace: String,
    /// How many are in it.
    pub namespace_count: usize,
    /// The fixed text their local names share before a number, and how many have it.
    pub fixed_part: Option<(String, usize)>,
    /// How many have a numbered local name.
    pub numbered: usize,
    /// How many namespaces are in use.
    pub namespaces: usize,
}

/// The pattern a vocabulary's own concepts suggest, and what they showed to suggest it.
#[derive(Debug, Clone, PartialEq, Eq)]
pub struct Suggestion {
    /// The pattern.
    pub pattern: PatternShown,
    /// What the concepts showed.
    pub evidence: Evidence,
}

/// Two patterns are the same: written alike, and minting alike.
pub open spec fn same_pattern(a: PatternShown, b: PatternShown) -> bool {
    a.text@ == b.text@ && a.readable == b.readable
}

/// The trade a pattern's policy makes, in the words the operator needs before choosing it.
pub open spec fn policy_line_text(readable: bool) -> Seq<char> {
    if readable {
        "  a readable IRI: the local name comes from the label, and is never revised when the label changes\n"@
    } else {
        "  an opaque IRI: the local name means nothing, so nothing about the concept can make it wrong\n"@
    }
}

/// The trade a pattern's policy makes: an opaque IRI, or a readable one.
pub fn policy_line(readable: bool) -> (line: &'static str)
    ensures
        line@ == policy_line_text(readable),
{
    if readable {
        "  a readable IRI: the local name comes from the label, and is never revised when the label changes\n"
    } else {
        "  an opaque IRI: the local name means nothing, so nothing about the concept can make it wrong\n"
    }
}

/// How a pattern stands against what the vocabulary's own concepts suggest (`suggested`, or why
/// they suggest nothing), for a pattern `chosen` now or one already recorded.
pub open spec fn compared_text(
    pattern: PatternShown,
    suggested: Result<Suggestion, String>,
    chosen: bool,
) -> Seq<char> {
    match suggested {
        Ok(suggestion) => if same_pattern(suggestion.pattern, pattern) {
            "  which is also what this vocabulary's own concepts suggest\n"@
        } else if chosen {
            "  this vocabulary's own concepts suggest "@ + suggestion.pattern.text@
                + " instead; minting under a different pattern is legitimate and it is also how a concept ends up in the wrong namespace\n"@
        } else {
            "  this vocabulary's own concepts suggest "@ + suggestion.pattern.text@
                + " instead, so its recorded policy and the IRIs it already holds disagree: either the policy was recorded to change the convention, or it names a namespace nobody meant. Nothing already minted is affected either way\n"@
        },
        Err(error) => "  this vocabulary suggests nothing to compare it with: "@ + error@ + "\n"@,
    }
}

/// How `pattern` stands against what the vocabulary's own concepts suggest: the same, different
/// (said one way for a pattern chosen now, another for one already recorded), or nothing to
/// compare with, and why.
pub fn compared_with_convention(
    pattern: &PatternShown,
    suggested: &Result<Suggestion, String>,
    chosen: bool,
) -> (text: String)
    ensures
        text@ == compared_text(*pattern, *suggested, chosen),
{
    match suggested {
        Ok(suggestion) => {
            if same_text(suggestion.pattern.text.as_str(), pattern.text.as_str())
                && suggestion.pattern.readable == pattern.readable {
                string_of("  which is also what this vocabulary's own concepts suggest\n")
            } else {
                let mut out = string_of("  this vocabulary's own concepts suggest ");
                push_str(&mut out, suggestion.pattern.text.as_str());
                if chosen {
                    push_str(
                        &mut out,
                        " instead; minting under a different pattern is legitimate and it is also how a concept ends up in the wrong namespace\n",
                    );
                } else {
                    push_str(
                        &mut out,
                        " instead, so its recorded policy and the IRIs it already holds disagree: either the policy was recorded to change the convention, or it names a namespace nobody meant. Nothing already minted is affected either way\n",
                    );
                }
                out
            }
        },
        Err(error) => {
            let mut out = string_of("  this vocabulary suggests nothing to compare it with: ");
            push_str(&mut out, error.as_str());
            push_str(&mut out, "\n");
            out
        },
    }
}

/// Where the pattern a mint used came from.
#[derive(Debug, PartialEq, Eq)]
pub enum PatternSource {
    /// Given with `--pattern`, for this command only; with the policy the vocabulary records, if
    /// it records one.
    Given {
        /// The recorded policy this command steps over for one mint, if there is one.
        recorded: Option<RecordedPolicy>,
    },
    /// Recorded for the vocabulary, which is what every producer reads.
    Recorded(RecordedPolicy),
    /// Read off the vocabulary's own concepts, because nothing is recorded.
    Inferred,
}

/// "`by` at `at`", of a recorded policy.
pub open spec fn set_by(policy: RecordedPolicy) -> Seq<char> {
    policy.recorded_by@ + " at "@ + policy.recorded_at@
}

/// What a pattern given with `--pattern` is said to stand against: what the vocabulary records, if
/// anything.
pub open spec fn given_text(pattern: PatternShown, recorded: Option<RecordedPolicy>) -> Seq<char> {
    "  given with --pattern, for this one command\n"@ + (match recorded {
        Some(policy) => if policy.pattern@ == pattern.text@ {
            "  which is also what this vocabulary records, set by "@ + set_by(policy) + "\n"@
        } else {
            "  this vocabulary records "@ + debug_quoted(policy.pattern@) + " instead, set by "@
                + set_by(policy)
                + "; that record is unchanged and every other producer still mints under it. Use `openbiz policy` if the recorded pattern is the one that should change\n"@
        },
        None => "  nothing is recorded for this vocabulary, so this pattern applies to this command and to nothing else\n"@,
    })
}

/// How many concepts are in the namespace the pattern mints into.
pub open spec fn namespace_share_text(evidence: Evidence) -> Seq<char> {
    "  read off this vocabulary: "@ + decimal(evidence.namespace_count as nat) + " of its "@
        + decimal(evidence.concepts as nat) + " concept(s) are in "@ + evidence.namespace@
}

/// How many of those have a numbered local name, after a fixed part or not.
pub open spec fn numbered_text(evidence: Evidence) -> Seq<char> {
    match evidence.fixed_part {
        Some((fixed, count)) => ", and "@ + decimal(count as nat) + " of those have a number after "@
            + debug_quoted(fixed@) + "\n"@,
        None => ", and "@ + decimal(evidence.numbered as nat)
            + " of those have a numbered local name, which is not most of them\n"@,
    }
}

/// How many namespaces are in use, when more than one is.
pub open spec fn namespaces_text(evidence: Evidence) -> Seq<char> {
    if evidence.namespaces > 1 {
        "  "@ + decimal(evidence.namespaces as nat)
            + " namespace(s) are in use here; the others are not minted into\n"@
    } else {
        Seq::empty()
    }
}

/// What the concepts showed, for an inferred pattern.
pub open spec fn evidence_text(evidence: Evidence) -> Seq<char> {
    namespace_share_text(evidence) + numbered_text(evidence) + namespaces_text(evidence)
}

/// Where a mint's pattern came from, and what that means for every other producer.
pub open spec fn source_text(
    pattern: PatternShown,
    source: PatternSource,
    suggested: Result<Suggestion, String>,
) -> Seq<char> {
    match source {
        PatternSource::Given { recorded } => given_text(pattern, recorded) + compared_text(
            pattern,
            suggested,
            true,
        ),
        PatternSource::Recorded(policy) => "  recorded for this vocabulary by "@ + set_by(policy)
            + ", so every producer mints under it \u{2014} an import, a match against another vocabulary, and a curator at this command line all get the same answer\n"@
            + compared_text(pattern, suggested, false)
            + "  give --pattern to mint once under a different one, or `openbiz policy` to change what is recorded\n"@,
        PatternSource::Inferred => (match suggested {
            Ok(suggestion) => evidence_text(suggestion.evidence),
            Err(_) => Seq::empty(),
        })
            + "  nothing is recorded for this vocabulary, so this was inferred from its own concepts and is a reading of them as they stand now: it changes when they do, and two producers reading it at different times can disagree\n"@
            + "  record it with `openbiz policy` to fix it for every producer, or give --pattern to override it once\n"@,
    }
}

fn push_set_by(out: &mut String, policy: &RecordedPolicy)
    ensures
        final(out)@ == old(out)@ + set_by(*policy),
{
    push_str(out, policy.recorded_by.as_str());
    push_str(out, " at ");
    push_str(out, policy.recorded_at.as_str());
    assert(out@ =~= old(out)@ + set_by(*policy));
}

#[verifier::spinoff_prover]
fn push_given(out: &mut String, pattern: &PatternShown, recorded: &Option<RecordedPolicy>)
    ensures
        final(out)@ == old(out)@ + given_text(*pattern, *recorded),
{
    push_str(out, "  given with --pattern, for this one command\n");
    match recorded {
        Some(policy) => {
            if same_text(policy.pattern.as_str(), pattern.text.as_str()) {
                push_str(out, "  which is also what this vocabulary records, set by ");
                push_set_by(out, policy);
                push_str(out, "\n");
            } else {
                push_str(out, "  this vocabulary records ");
                let written = quoted(policy.pattern.as_str());
                push_str(out, written.as_str());
                push_str(out, " instead, set by ");
                push_set_by(out, policy);
                push_str(
                    out,
                    "; that record is unchanged and every other producer still mints under it. Use `openbiz policy` if the recorded pattern is the one that should change\n",
                );
            }
        },
        None => push_str(
            out,
            "  nothing is recorded for this vocabulary, so this pattern applies to this command and to nothing else\n",
        ),
    }
    assert(out@ =~= old(out)@ + given_text(*pattern, *recorded));
}

#[verifier::spinoff_prover]
fn push_namespace_share(out: &mut String, evidence: &Evidence)
    ensures
        final(out)@ == old(out)@ + namespace_share_text(*evidence),
{
    push_str(out, "  read off this vocabulary: ");
    push_count(out, evidence.namespace_count);
    push_str(out, " of its ");
    push_count(out, evidence.concepts);
    push_str(out, " concept(s) are in ");
    push_str(out, evidence.namespace.as_str());
    assert(out@ =~= old(out)@ + namespace_share_text(*evidence));
}

#[verifier::spinoff_prover]
fn push_numbered(out: &mut String, evidence: &Evidence)
    ensures
        final(out)@ == old(out)@ + numbered_text(*evidence),
{
    match &evidence.fixed_part {
        Some((fixed, count)) => {
            push_str(out, ", and ");
            push_count(out, *count);
            push_str(out, " of those have a number after ");
            let written = quoted(fixed.as_str());
            push_str(out, written.as_str());
            push_str(out, "\n");
        },
        None => {
            push_str(out, ", and ");
            push_count(out, evidence.numbered);
            push_str(out, " of those have a numbered local name, which is not most of them\n");
        },
    }
    assert(out@ =~= old(out)@ + numbered_text(*evidence));
}

fn push_evidence(out: &mut String, evidence: &Evidence)
    ensures
        final(out)@ == old(out)@ + evidence_text(*evidence),
{
    push_namespace_share(out, evidence);
    push_numbered(out, evidence);
    let ghost counted = out@;
    if evidence.namespaces > 1 {
        push_str(out, "  ");
        push_count(out, evidence.namespaces);
        push_str(out, " namespace(s) are in use here; the others are not minted into\n");
    }
    assert(out@ =~= counted + namespaces_text(*evidence));
    assert(out@ =~= old(out)@ + evidence_text(*evidence));
}

/// Where the pattern a mint used came from, and what that means: given for this command (and
/// whether it steps over a recorded policy), recorded for every producer, or inferred from the
/// concepts as they stand, with what they showed; each with how it stands against what the
/// concepts suggest.
#[verifier::spinoff_prover]
pub fn source_of_pattern(
    pattern: &PatternShown,
    source: &PatternSource,
    suggested: &Result<Suggestion, String>,
) -> (text: String)
    ensures
        text@ == source_text(*pattern, *source, *suggested),
{
    let mut out = String::new();
    match source {
        PatternSource::Given { recorded } => {
            push_given(&mut out, pattern, recorded);
            let compared = compared_with_convention(pattern, suggested, true);
            push_str(&mut out, compared.as_str());
        },
        PatternSource::Recorded(policy) => {
            push_str(&mut out, "  recorded for this vocabulary by ");
            push_set_by(&mut out, policy);
            push_str(
                &mut out,
                ", so every producer mints under it \u{2014} an import, a match against another vocabulary, and a curator at this command line all get the same answer\n",
            );
            let compared = compared_with_convention(pattern, suggested, false);
            push_str(&mut out, compared.as_str());
            push_str(
                &mut out,
                "  give --pattern to mint once under a different one, or `openbiz policy` to change what is recorded\n",
            );
        },
        PatternSource::Inferred => {
            match suggested {
                Ok(suggestion) => push_evidence(&mut out, &suggestion.evidence),
                Err(_) => {},
            }
            push_str(
                &mut out,
                "  nothing is recorded for this vocabulary, so this was inferred from its own concepts and is a reading of them as they stand now: it changes when they do, and two producers reading it at different times can disagree\n",
            );
            push_str(
                &mut out,
                "  record it with `openbiz policy` to fix it for every producer, or give --pattern to override it once\n",
            );
        },
    }
    assert(out@ =~= source_text(*pattern, *source, *suggested));
    out
}

/// The reuse ladder, in the words of what this build can do about it: printed where something
/// was found.
pub const LADDER: &'static str = "\nreuse outranks creation (adr/0003 \u{a7}3), in this order: use one of these concepts as it stands; map to it with skos:exactMatch or skos:closeMatch; extend it with a narrower concept of your own; and only then create a new one. ";

/// What a mint can say about the ladder's last rung.
pub const STILL_MINTED: &'static str = "An IRI is still minted below, because two concepts can legitimately share a label \u{2014} but if one of these is the concept you mean, minting a second one is how a vocabulary becomes a silo.\nif you create one anyway, \u{a7}3 asks for a recorded reason naming what was found and why none of it fitted: give --because \"\u{2026}\" and this command files one, which `openbiz justifications` and any SPARQL query over the system graph can then be asked about.\n";

/// The kind a label is held under, as SKOS names the property, or "labelled" when it is not known.
pub open spec fn kind_written(kind: Option<LabelKind>) -> Seq<char> {
    match kind {
        Some(LabelKind::Preferred) => "skos:prefLabel"@,
        Some(LabelKind::Alternative) => "skos:altLabel"@,
        Some(LabelKind::Hidden) => "skos:hiddenLabel"@,
        None => "labelled"@,
    }
}

/// One match on its line: the resource, its display label, the kind and text of the label that
/// matched, and where it lives.
pub open spec fn hit_line(hit: Match) -> Seq<char> {
    "  "@ + node_written(hit.resource) + (match hit.display {
        Some(display) => "  ("@ + display@ + ")"@,
        None => Seq::empty(),
    }) + "  "@ + kind_written(hit.kind) + (match hit.label.language {
        Some(tag) => " "@ + debug_quoted(hit.label.text@) + "@"@ + tag@,
        None => " "@ + debug_quoted(hit.label.text@) + ", untagged"@,
    }) + ", in "@ + hit.within@ + "\n"@
}

/// Each match on its line, in order.
pub open spec fn hit_lines(hits: Seq<Match>) -> Seq<char>
    decreases hits.len(),
{
    if hits.len() == 0 {
        Seq::empty()
    } else {
        hit_lines(hits.drop_last()) + hit_line(hits.last())
    }
}

/// Appends the kind a label is held under.
fn push_kind(out: &mut String, kind: Option<LabelKind>)
    ensures
        final(out)@ == old(out)@ + kind_written(kind),
{
    match kind {
        Some(LabelKind::Preferred) => push_str(out, "skos:prefLabel"),
        Some(LabelKind::Alternative) => push_str(out, "skos:altLabel"),
        Some(LabelKind::Hidden) => push_str(out, "skos:hiddenLabel"),
        None => push_str(out, "labelled"),
    }
}

/// One match: what it is, what it is called, how it matched, and where it lives.
#[verifier::spinoff_prover]
#[verifier::rlimit(40)]
pub fn line(hit: &Match) -> (text: String)
    ensures
        text@ == hit_line(*hit),
{
    let mut out = string_of("  ");
    let written = hit.resource.to_string();
    push_str(&mut out, written.as_str());
    match &hit.display {
        Some(display) => {
            push_str(&mut out, "  (");
            push_str(&mut out, display.as_str());
            push_str(&mut out, ")");
        },
        None => {},
    }
    push_str(&mut out, "  ");
    push_kind(&mut out, hit.kind);
    push_str(&mut out, " ");
    let text = quoted(hit.label.text.as_str());
    push_str(&mut out, text.as_str());
    match &hit.label.language {
        Some(tag) => {
            push_str(&mut out, "@");
            push_str(&mut out, tag.as_str());
        },
        None => push_str(&mut out, ", untagged"),
    }
    push_str(&mut out, ", in ");
    push_str(&mut out, hit.within.as_str());
    push_str(&mut out, "\n");
    assert(out@ =~= hit_line(*hit));
    out
}

/// How many different resources `hits` are about.
pub open spec fn distinct_resources(hits: Seq<Match>) -> nat
    decreases hits.len(),
{
    if hits.len() == 0 {
        0
    } else {
        distinct_resources(hits.drop_last()) + if exists|j: int|
            0 <= j < hits.len() - 1 && node_same(#[trigger] hits[j].resource, hits.last().resource) {
            0nat
        } else {
            1nat
        }
    }
}

proof fn lemma_distinct_bounded(hits: Seq<Match>)
    ensures
        distinct_resources(hits) <= hits.len(),
    decreases hits.len(),
{
    if hits.len() > 0 {
        lemma_distinct_bounded(hits.drop_last());
    }
}

/// How many different resources the matches are about.
#[verifier::spinoff_prover]
fn count_resources(hits: &Vec<&Match>) -> (count: usize)
    ensures
        count == distinct_resources(hits@.map_values(|hit: &Match| *hit)),
{
    let ghost all = hits@.map_values(|hit: &Match| *hit);
    let mut count: usize = 0;
    let mut i: usize = 0;
    while i < hits.len()
        invariant
            i <= hits@.len(),
            all == hits@.map_values(|hit: &Match| *hit),
            count == distinct_resources(all.take(i as int)),
        decreases hits.len() - i,
    {
        let mut seen = false;
        let mut j: usize = 0;
        while j < i
            invariant
                j <= i < hits@.len(),
                all == hits@.map_values(|hit: &Match| *hit),
                seen == exists|k: int| 0 <= k < j && node_same(#[trigger] all[k].resource, all[i as int].resource),
            decreases i - j,
        {
            let same = hits[j].resource.same_as(&hits[i].resource);
            proof {
                assert(all[j as int] == *hits@[j as int]);
                assert(all[i as int] == *hits@[i as int]);
            }
            if same {
                seen = true;
            }
            proof {
                if same {
                    assert(node_same(all[j as int].resource, all[i as int].resource));
                }
            }
            j = j + 1;
        }
        proof {
            let next = all.take(i + 1 as int);
            assert(next.drop_last() =~= all.take(i as int));
            assert(next.last() == all[i as int]);
            assert forall|k: int| 0 <= k < i implies next[k] == all[k] by {}
            assert((exists|k: int| 0 <= k < next.len() - 1 && node_same(#[trigger] next[k].resource, next.last().resource))
                == seen) by {
                if seen {
                    let k = choose|k: int| 0 <= k < i && node_same(#[trigger] all[k].resource, all[i as int].resource);
                    assert(node_same(next[k].resource, next.last().resource));
                }
            }
            lemma_distinct_bounded(all.take(i as int));
        }
        if !seen {
            count = count + 1;
        }
        i = i + 1;
    }
    assert(all.take(hits@.len() as int) =~= all);
    count
}

/// Appends each of `hits` on its line.
fn push_hits(out: &mut String, hits: &Vec<&Match>)
    ensures
        final(out)@ == old(out)@ + hit_lines(hits@.map_values(|hit: &Match| *hit)),
{
    let ghost all = hits@.map_values(|hit: &Match| *hit);
    let ghost start = out@;
    let mut i: usize = 0;
    while i < hits.len()
        invariant
            i <= hits@.len(),
            all == hits@.map_values(|hit: &Match| *hit),
            out@ == start + hit_lines(all.take(i as int)),
        decreases hits.len() - i,
    {
        let text = line(hits[i]);
        push_str(out, text.as_str());
        proof {
            let next = all.take(i + 1 as int);
            assert(next.drop_last() =~= all.take(i as int));
            assert(next.last() == all[i as int]);
        }
        i = i + 1;
    }
    assert(all.take(hits@.len() as int) =~= all);
}

/// The concepts whose label is `label` in full: a stop, counted by concept; or that there are
/// none.
pub open spec fn exact_part_text(label: Seq<char>, found: Discovered) -> Seq<char> {
    let exact = exact_of(found.listed());
    if exact.len() > 0 {
        "\nSTOP \u{2014} "@ + debug_quoted(label) + " is already a label on "@ + decimal(
            distinct_resources(exact),
        ) + " concept(s) discovery reached:\n"@ + hit_lines(exact)
    } else {
        "\nnothing discovery reached is called "@ + debug_quoted(label) + "\n"@
    }
}

/// The concepts whose label contains the label, when there are any.
pub open spec fn related_part_text(found: Discovered) -> Seq<char> {
    let exact = exact_of(found.listed());
    let related = related_of(found.listed());
    if related.len() > 0 {
        "\n"@ + (if exact.len() == 0 { "but"@ } else { "and"@ }) + " "@ + decimal(related.len())
            + " label(s) contain it, which may be the concept meant under another name:\n"@
            + hit_lines(related)
    } else {
        Seq::empty()
    }
}

/// The concepts whose label is `label` in full, and those whose label contains it.
pub open spec fn matches_text(label: Seq<char>, found: Discovered) -> Seq<char> {
    exact_part_text(label, found) + related_part_text(found)
}

/// How many matches the bound withheld, when it withheld any.
pub open spec fn withheld_text(found: Discovered) -> Seq<char> {
    if found.listed().len() < found.total() {
        "  "@ + decimal((found.total() - found.listed().len()) as nat)
            + " more match(es) are not listed: "@ + decimal(found.total())
            + " matched and this report stops at "@ + decimal(found.ran_under().max_matches as nat)
            + "\n"@
    } else {
        Seq::empty()
    }
}

/// The reuse ladder, when anything was found.
pub open spec fn ladder_text(found: Discovered) -> Seq<char> {
    if found.listed().len() > 0 {
        LADDER@ + STILL_MINTED@
    } else {
        Seq::empty()
    }
}

/// What the mint report says of concepts already called what is being minted, found by
/// discovery for `label`: those whose label is the label in full (a stop), those whose label
/// contains it, what the bound withheld, the reuse ladder when anything was found, and every
/// source consulted.
pub open spec fn found_text(label: Seq<char>, found: Discovered) -> Seq<char> {
    matches_text(label, found) + withheld_text(found) + ladder_text(found) + consulted_text(
        found.asked(),
    )
}

/// What the mint report says about whether the concept is already there: that no label was given,
/// that the one given is empty, or what discovery found for it.
pub open spec fn already_text(label: Option<Seq<char>>, found: Option<Discovered>) -> Seq<char> {
    match label {
        None => "\nno label was given, so nothing was checked for an existing concept of the same name; give one and this looks across every vocabulary in the store first\n"@,
        Some(text) => match found {
            None => "\nthe label given is empty, so nothing was looked for: an empty query matches every label there is\n"@,
            Some(pass) => found_text(text, pass),
        },
    }
}

#[verifier::spinoff_prover]
fn push_exact_part(out: &mut String, label: &str, found: &Discovered)
    ensures
        final(out)@ == old(out)@ + exact_part_text(label@, *found),
{
    let exact = found.exact();
    proof {
        assert(exact@.map_values(|hit: &Match| *hit) =~= exact_of(found.listed()));
    }
    if exact.len() > 0 {
        push_str(out, "\nSTOP \u{2014} ");
        let written = quoted(label);
        push_str(out, written.as_str());
        push_str(out, " is already a label on ");
        let concepts = count_resources(&exact);
        push_count(out, concepts);
        push_str(out, " concept(s) discovery reached:\n");
        push_hits(out, &exact);
    } else {
        push_str(out, "\nnothing discovery reached is called ");
        let written = quoted(label);
        push_str(out, written.as_str());
        push_str(out, "\n");
    }
    assert(out@ =~= old(out)@ + exact_part_text(label@, *found));
}

#[verifier::spinoff_prover]
fn push_related_part(out: &mut String, found: &Discovered)
    ensures
        final(out)@ == old(out)@ + related_part_text(*found),
{
    let exact = found.exact();
    let related = found.related();
    proof {
        assert(related@.map_values(|hit: &Match| *hit) =~= related_of(found.listed()));
    }
    if related.len() > 0 {
        push_str(out, "\n");
        if exact.len() == 0 {
            push_str(out, "but");
        } else {
            push_str(out, "and");
        }
        push_str(out, " ");
        push_count(out, related.len());
        push_str(out, " label(s) contain it, which may be the concept meant under another name:\n");
        push_hits(out, &related);
    }
    assert(out@ =~= old(out)@ + related_part_text(*found));
}

fn push_matches_found(out: &mut String, label: &str, found: &Discovered)
    ensures
        final(out)@ == old(out)@ + matches_text(label@, *found),
{
    push_exact_part(out, label, found);
    push_related_part(out, found);
    assert(out@ =~= old(out)@ + matches_text(label@, *found));
}

fn push_withheld(out: &mut String, found: &Discovered)
    ensures
        final(out)@ == old(out)@ + withheld_text(*found),
{
    if !found.is_complete() {
        push_str(out, "  ");
        push_count(out, found.withheld());
        push_str(out, " more match(es) are not listed: ");
        push_count(out, found.matched());
        push_str(out, " matched and this report stops at ");
        push_count(out, found.bound().max_matches);
        push_str(out, "\n");
    }
    assert(out@ =~= old(out)@ + withheld_text(*found));
}

fn push_ladder(out: &mut String, found: &Discovered)
    ensures
        final(out)@ == old(out)@ + ladder_text(*found),
{
    if found.matches().len() > 0 {
        push_str(out, LADDER);
        push_str(out, STILL_MINTED);
    }
    assert(out@ =~= old(out)@ + ladder_text(*found));
}

/// What the mint report says about whether the concept is already there: that no label was given
/// and nothing was checked; that the label is empty and nothing was looked for; or what discovery
/// found for it (the concepts already called that, each counted once; those
/// whose label contains it; what the bound withheld; the reuse ladder when anything was found;
/// and every source consulted).
#[verifier::spinoff_prover]
pub fn already_here(label: Option<&str>, found: Option<&Discovered>) -> (text: String)
    ensures
        text@ == already_text(
            match label {
                Some(text) => Some(text@),
                None => None,
            },
            match found {
                Some(pass) => Some(*pass),
                None => None,
            },
        ),
{
    let label = match label {
        None => {
            return string_of(
                "\nno label was given, so nothing was checked for an existing concept of the same name; give one and this looks across every vocabulary in the store first\n",
            );
        },
        Some(label) => label,
    };
    let found = match found {
        None => {
            return string_of(
                "\nthe label given is empty, so nothing was looked for: an empty query matches every label there is\n",
            );
        },
        Some(found) => found,
    };
    let mut out = String::new();
    push_matches_found(&mut out, label, found);
    push_withheld(&mut out, found);
    push_ladder(&mut out, found);
    let sources = consulted(found);
    push_str(&mut out, sources.as_str());
    assert(out@ =~= found_text(label@, *found));
    out
}

/// The highest number already minted under a numbered pattern.
#[derive(Debug, Clone, PartialEq, Eq)]
pub struct HighestNumber {
    /// The number.
    pub number: u64,
    /// The IRI it is in.
    pub iri: String,
    /// It is written with leading zeros, which is how the vocabulary writes its numbers.
    pub pads: bool,
}

/// How a minted IRI's local name was made.
#[derive(Debug, Clone, PartialEq, Eq)]
pub enum MintDerivation {
    /// From a label, reduced to a local name.
    FromLabel {
        /// The label.
        label: String,
        /// The local name it was reduced to.
        slug: String,
        /// The label was cut at a word boundary to keep the local name short.
        truncated: bool,
    },
    /// The next number under a numbered pattern.
    Numbered {
        /// The number minted.
        number: u64,
        /// How many digits it is written with.
        width: usize,
        /// The highest number already in use, if any is.
        above: Option<HighestNumber>,
    },
}

/// The account of how a minted IRI's local name was made.
pub open spec fn derivation_text(derivation: MintDerivation) -> Seq<char> {
    match derivation {
        MintDerivation::FromLabel { label, slug, truncated } => "  from the label "@ + debug_quoted(
            label@,
        ) + ", reduced to "@ + debug_quoted(slug@) + "\n"@ + (if truncated {
            "  the label was longer than a local name should be, so it was cut at a word boundary: the IRI no longer says the whole term\n"@
        } else {
            Seq::empty()
        })
            + "  accented and non-Latin characters are kept rather than transliterated: RFC 3987 \u{a7}2.2 allows them in an IRI, and mapping them to ASCII is a guess that differs by language\n"@
            + "  this is the trade a readable IRI makes: if the label is later corrected, the IRI stays as it is, because an IRI that changes is a different concept\n"@,
        MintDerivation::Numbered { number, width, above } => match above {
            Some(highest) => "  the highest number in use under this pattern is "@ + decimal(
                highest.number as nat,
            ) + ", in "@ + highest.iri@ + "\n  "@ + decimal(number as nat)
                + " is above it, not the lowest free number: a gap is evidence that something was once there, and an IRI must never come back attached to a different concept\n"@
                + if highest.pads {
                "  written with "@ + decimal(width as nat)
                    + " digits, which is how this vocabulary writes them: "@ + highest.iri@ + "\n"@
            } else {
                Seq::empty()
            },
            None => "  nothing in this store uses this pattern yet, so this is the first\n"@,
        },
    }
}

#[verifier::spinoff_prover]
fn push_from_label(out: &mut String, label: &String, slug: &String, truncated: bool)
    ensures
        final(out)@ == old(out)@ + derivation_text(
            MintDerivation::FromLabel { label: *label, slug: *slug, truncated },
        ),
{
    push_str(out, "  from the label ");
    let written = quoted(label.as_str());
    push_str(out, written.as_str());
    push_str(out, ", reduced to ");
    let reduced = quoted(slug.as_str());
    push_str(out, reduced.as_str());
    push_str(out, "\n");
    if truncated {
        push_str(
            out,
            "  the label was longer than a local name should be, so it was cut at a word boundary: the IRI no longer says the whole term\n",
        );
    }
    push_str(
        out,
        "  accented and non-Latin characters are kept rather than transliterated: RFC 3987 \u{a7}2.2 allows them in an IRI, and mapping them to ASCII is a guess that differs by language\n",
    );
    push_str(
        out,
        "  this is the trade a readable IRI makes: if the label is later corrected, the IRI stays as it is, because an IRI that changes is a different concept\n",
    );
    assert(out@ =~= old(out)@ + derivation_text(
        MintDerivation::FromLabel { label: *label, slug: *slug, truncated },
    ));
}

#[verifier::spinoff_prover]
fn push_numbered_above(out: &mut String, number: u64, width: usize, highest: &HighestNumber)
    ensures
        final(out)@ == old(out)@ + derivation_text(
            MintDerivation::Numbered { number, width, above: Some(*highest) },
        ),
{
    push_str(out, "  the highest number in use under this pattern is ");
    crate::text::push_decimal(out, highest.number);
    push_str(out, ", in ");
    push_str(out, highest.iri.as_str());
    push_str(out, "\n  ");
    crate::text::push_decimal(out, number);
    push_str(
        out,
        " is above it, not the lowest free number: a gap is evidence that something was once there, and an IRI must never come back attached to a different concept\n",
    );
    let ghost above = out@;
    if highest.pads {
        push_str(out, "  written with ");
        push_count(out, width);
        push_str(out, " digits, which is how this vocabulary writes them: ");
        push_str(out, highest.iri.as_str());
        push_str(out, "\n");
    }
    assert(out@ =~= old(out)@ + derivation_text(
        MintDerivation::Numbered { number, width, above: Some(*highest) },
    ));
}

/// How a minted IRI's local name was made: from a label (what it was reduced to, whether it was
/// cut, and the trade a readable IRI makes), or as the next number (above the highest in use, and
/// never a reused gap), or as the first under its pattern.
pub fn derivation(how: &MintDerivation) -> (text: String)
    ensures
        text@ == derivation_text(*how),
{
    let mut out = String::new();
    match how {
        MintDerivation::FromLabel { label, slug, truncated } => {
            push_from_label(&mut out, label, slug, *truncated);
        },
        MintDerivation::Numbered { number, width, above } => match above {
            Some(highest) => push_numbered_above(&mut out, *number, *width, highest),
            None => push_str(
                &mut out,
                "  nothing in this store uses this pattern yet, so this is the first\n",
            ),
        },
    }
    assert(out@ =~= derivation_text(*how));
    out
}

/// What a mint report says about the justification asked for with `--because`: the record filed
/// (what it names as passed over, whether its search finished, and the matches it could not name),
/// that none was filed because nothing was minted, or nothing when none was asked for.
pub open spec fn justification_text(
    because: bool,
    recorded: Option<JustificationRecord>,
    unnamed: nat,
) -> Seq<char> {
    if !because {
        Seq::empty()
    } else {
        match recorded {
            None => "\nno justification was recorded: nothing was minted for one to be about\n"@,
            Some(record) => "\njustification "@ + record.id@
                + " recorded, in OpenBiz's own graph and not in the vocabulary:\n  "@ + debug_quoted(
                record.reason@,
            ) + "\n  recorded by "@ + record.recorded_by@ + " at "@ + record.recorded_at@ + "\n"@
                + (if record.considered@.len() == 0 {
                "  naming nothing passed over, because discovery found nothing under this label\n"@
            } else {
                "  naming "@ + decimal(record.considered@.len())
                    + " existing resource(s) passed over, each queryable as <urn:openbiz:justificationConsidered>\n"@
                    + listed_lines(record.considered@, "    "@)
            }) + (if record.complete {
                Seq::empty()
            } else {
                "  the search behind it did not finish \u{2014} a source was unreachable or the match list stopped at its bound \u{2014} and the record says so\n"@
            }) + if unnamed > 0 {
                "  "@ + decimal(unnamed)
                    + " match(es) are not named in the record: they are blank nodes, which nothing can look up later\n"@
            } else {
                Seq::empty()
            },
        }
    }
}

fn push_record_head(out: &mut String, record: &JustificationRecord)
    ensures
        final(out)@ == old(out)@ + "\njustification "@ + record.id@
            + " recorded, in OpenBiz's own graph and not in the vocabulary:\n  "@ + debug_quoted(
            record.reason@,
        ) + "\n  recorded by "@ + record.recorded_by@ + " at "@ + record.recorded_at@ + "\n"@,
{
    push_str(out, "\njustification ");
    push_str(out, record.id.as_str());
    push_str(out, " recorded, in OpenBiz's own graph and not in the vocabulary:\n  ");
    let reason = quoted(record.reason.as_str());
    push_str(out, reason.as_str());
    push_str(out, "\n  recorded by ");
    push_str(out, record.recorded_by.as_str());
    push_str(out, " at ");
    push_str(out, record.recorded_at.as_str());
    push_str(out, "\n");
    assert(out@ =~= old(out)@ + "\njustification "@ + record.id@
        + " recorded, in OpenBiz's own graph and not in the vocabulary:\n  "@ + debug_quoted(
        record.reason@,
    ) + "\n  recorded by "@ + record.recorded_by@ + " at "@ + record.recorded_at@ + "\n"@);
}

/// What a mint report says about the justification asked for with `--because`: the record filed,
/// with what it names as passed over, whether the search behind it finished, and how many matches
/// it could not name because they are blank nodes; or that none was filed, because nothing was
/// minted. Nothing when no justification was asked for.
#[verifier::spinoff_prover]
#[verifier::rlimit(40)]
pub fn justification_line(
    because: Option<&str>,
    recorded: &Option<JustificationRecord>,
    found: Option<&Discovered>,
) -> (text: String)
    ensures
        text@ == justification_text(
            because is Some,
            *recorded,
            match found {
                Some(pass) => blank_count(pass.listed()),
                None => 0,
            },
        ),
{
    if because.is_none() {
        return String::new();
    }
    let record = match recorded {
        None => {
            return string_of(
                "\nno justification was recorded: nothing was minted for one to be about\n",
            );
        },
        Some(record) => record,
    };
    let mut out = String::new();
    push_record_head(&mut out, record);
    if record.considered.len() == 0 {
        push_str(
            &mut out,
            "  naming nothing passed over, because discovery found nothing under this label\n",
        );
    } else {
        push_str(&mut out, "  naming ");
        push_count(&mut out, record.considered.len());
        push_str(
            &mut out,
            " existing resource(s) passed over, each queryable as <urn:openbiz:justificationConsidered>\n",
        );
        push_listed(&mut out, &record.considered, "    ");
    }
    let ghost named = out@;
    if !record.complete {
        push_str(
            &mut out,
            "  the search behind it did not finish \u{2014} a source was unreachable or the match list stopped at its bound \u{2014} and the record says so\n",
        );
    }
    let unnamed: usize = match found {
        Some(pass) => unnameable(pass),
        None => 0,
    };
    if unnamed > 0 {
        push_str(&mut out, "  ");
        push_count(&mut out, unnamed);
        push_str(
            &mut out,
            " match(es) are not named in the record: they are blank nodes, which nothing can look up later\n",
        );
    }
    assert(out@ =~= justification_text(
        because is Some,
        *recorded,
        match found {
            Some(pass) => blank_count(pass.listed()),
            None => 0,
        },
    ));
    out
}

/// What a mint checked a new IRI against: the IRIs already under the pattern's namespace, where
/// they are, and how many were read in all.
#[derive(Debug, Clone, PartialEq, Eq)]
pub struct MintScan {
    /// How many IRIs are under the namespace.
    pub under: usize,
    /// How many IRIs were read in all.
    pub offered: usize,
    /// Where the ones under the namespace are, and how many in each.
    pub sources: Vec<(String, usize)>,
}

/// What minting came to: the IRI and how it was made, or why nothing was minted and whether
/// that is because the IRI is already taken.
#[derive(Debug, Clone, PartialEq, Eq)]
pub enum MintOutcome {
    /// An IRI was minted.
    Minted {
        /// The IRI.
        iri: String,
        /// How its local name was made.
        how: MintDerivation,
    },
    /// Nothing was minted.
    Refused {
        /// Why, as the report writes it.
        reason: String,
        /// The IRI the pattern gives is already in use.
        taken: bool,
    },
}

/// What a mint says before the IRI: the vocabulary, and the label, if one was given.
pub open spec fn mint_head_text(graph: Seq<char>, label: Option<Seq<char>>) -> Seq<char> {
    "an IRI for a new concept in "@ + graph + "\n"@ + match label {
        Some(text) => "to be called "@ + debug_quoted(text) + "\n"@,
        None => "with no label given\n"@,
    }
}

/// What the new IRI was checked against.
pub open spec fn scan_text(prefix: Seq<char>, scan: MintScan) -> Seq<char> {
    "\nchecked against "@ + decimal(scan.under as nat) + " IRI(s) under "@ + prefix + ", out of "@
        + decimal(scan.offered as nat) + " read:\n"@ + if scan.under == 0 {
        "  nothing in this store uses this namespace yet\n"@
    } else {
        crate::deprecate::mentions_lines(scan.sources@, " in "@)
    }
}

/// What was minted and how, or why nothing was.
pub open spec fn outcome_text(outcome: MintOutcome) -> Seq<char> {
    match outcome {
        MintOutcome::Minted { iri, how } => "\nminted: "@ + iri@ + "\n"@ + derivation_text(how),
        MintOutcome::Refused { reason, taken } => "\nnothing was minted: "@ + reason@ + "\n"@
            + if taken {
            "  no disambiguating suffix is offered: a second concept with the same label is the duplicate this build exists to prevent. Reuse the concept that holds the IRI, or qualify the term \u{2014} mint from \"Java (programming language)\" rather than from \"Java\".\n"@
        } else {
            Seq::empty()
        },
    }
}

/// The closing: that nothing is reserved, and what was written, if anything.
pub open spec fn mint_closing_text(wrote: bool) -> Seq<char> {
    if wrote {
        "\nnothing is staged and nothing is reserved: the justification above is the only thing written, and it is in OpenBiz's own graph rather than in the vocabulary. Run this again and it answers the same IRI. The IRI becomes taken when a change carrying it is staged \u{2014} `openbiz import` \u{2014} and the next mint sees it there.\n"@
    } else {
        "\nnothing was written and nothing is reserved: run this again and it answers the same. The IRI becomes taken when a change carrying it is staged \u{2014} `openbiz import` \u{2014} and the next mint sees it there.\n"@
    }
}

/// What `openbiz mint` reports.
pub open spec fn mint_text(
    graph: Seq<char>,
    label: Option<Seq<char>>,
    pattern: PatternShown,
    prefix: Seq<char>,
    source: PatternSource,
    suggested: Result<Suggestion, String>,
    scan: MintScan,
    outcome: MintOutcome,
    found: Option<Discovered>,
    because: bool,
    recorded: Option<JustificationRecord>,
) -> Seq<char> {
    mint_head_text(graph, label) + already_text(label, found) + "\npattern: "@ + pattern.text@
        + "\n"@ + policy_line_text(pattern.readable) + source_text(pattern, source, suggested)
        + scan_text(prefix, scan) + outcome_text(outcome) + justification_text(
        because,
        recorded,
        match found {
            Some(pass) => blank_count(pass.listed()),
            None => 0,
        },
    ) + mint_closing_text(recorded is Some)
}

fn push_mint_head(out: &mut String, graph: &str, label: Option<&str>)
    ensures
        final(out)@ == old(out)@ + mint_head_text(
            graph@,
            match label {
                Some(text) => Some(text@),
                None => None,
            },
        ),
{
    push_str(out, "an IRI for a new concept in ");
    push_str(out, graph);
    push_str(out, "\n");
    match label {
        Some(text) => {
            push_str(out, "to be called ");
            let written = quoted(text);
            push_str(out, written.as_str());
            push_str(out, "\n");
        },
        None => push_str(out, "with no label given\n"),
    }
    assert(out@ =~= old(out)@ + mint_head_text(
        graph@,
        match label {
            Some(text) => Some(text@),
            None => None,
        },
    ));
}

fn push_scan(out: &mut String, prefix: &str, scan: &MintScan)
    ensures
        final(out)@ == old(out)@ + scan_text(prefix@, *scan),
{
    push_str(out, "\nchecked against ");
    push_count(out, scan.under);
    push_str(out, " IRI(s) under ");
    push_str(out, prefix);
    push_str(out, ", out of ");
    push_count(out, scan.offered);
    push_str(out, " read:\n");
    if scan.under == 0 {
        push_str(out, "  nothing in this store uses this namespace yet\n");
    } else {
        crate::deprecate::push_mentions(out, &scan.sources, " in ");
    }
    assert(out@ =~= old(out)@ + scan_text(prefix@, *scan));
}

fn push_outcome(out: &mut String, outcome: &MintOutcome)
    ensures
        final(out)@ == old(out)@ + outcome_text(*outcome),
{
    match outcome {
        MintOutcome::Minted { iri, how } => {
            push_str(out, "\nminted: ");
            push_str(out, iri.as_str());
            push_str(out, "\n");
            let made = derivation(how);
            push_str(out, made.as_str());
        },
        MintOutcome::Refused { reason, taken } => {
            push_str(out, "\nnothing was minted: ");
            push_str(out, reason.as_str());
            push_str(out, "\n");
            if *taken {
                push_str(
                    out,
                    "  no disambiguating suffix is offered: a second concept with the same label is the duplicate this build exists to prevent. Reuse the concept that holds the IRI, or qualify the term \u{2014} mint from \"Java (programming language)\" rather than from \"Java\".\n",
                );
            }
        },
    }
    assert(out@ =~= old(out)@ + outcome_text(*outcome));
}

/// What `openbiz mint` reports: the vocabulary and label; first, whether the concept is already
/// there; the pattern, its trade and where it came from; what the IRI was checked against; what
/// was minted and how, or why nothing was; the justification filed, if one was asked for; and
/// that nothing is reserved, with what was written.
#[verifier::spinoff_prover]
#[verifier::rlimit(40)]
pub fn report(
    graph: &str,
    label: Option<&str>,
    pattern: &PatternShown,
    prefix: &str,
    source: &PatternSource,
    suggested: &Result<Suggestion, String>,
    scan: &MintScan,
    outcome: &MintOutcome,
    found: Option<&Discovered>,
    because: Option<&str>,
    recorded: &Option<JustificationRecord>,
) -> (text: String)
    ensures
        text@ == mint_text(
            graph@,
            match label {
                Some(text) => Some(text@),
                None => None,
            },
            *pattern,
            prefix@,
            *source,
            *suggested,
            *scan,
            *outcome,
            match found {
                Some(pass) => Some(*pass),
                None => None,
            },
            because is Some,
            *recorded,
        ),
{
    let mut out = String::new();
    push_mint_head(&mut out, graph, label);
    let existing = already_here(label, found);
    push_str(&mut out, existing.as_str());
    push_str(&mut out, "\npattern: ");
    push_str(&mut out, pattern.text.as_str());
    push_str(&mut out, "\n");
    push_str(&mut out, policy_line(pattern.readable));
    let came_from = source_of_pattern(pattern, source, suggested);
    push_str(&mut out, came_from.as_str());
    push_scan(&mut out, prefix, scan);
    push_outcome(&mut out, outcome);
    let filed = justification_line(because, recorded, found);
    push_str(&mut out, filed.as_str());
    match recorded {
        None => push_str(
            &mut out,
            "\nnothing was written and nothing is reserved: run this again and it answers the same. The IRI becomes taken when a change carrying it is staged \u{2014} `openbiz import` \u{2014} and the next mint sees it there.\n",
        ),
        Some(_) => push_str(
            &mut out,
            "\nnothing is staged and nothing is reserved: the justification above is the only thing written, and it is in OpenBiz's own graph rather than in the vocabulary. Run this again and it answers the same IRI. The IRI becomes taken when a change carrying it is staged \u{2014} `openbiz import` \u{2014} and the next mint sees it there.\n",
        ),
    }
    assert(out@ =~= mint_text(
        graph@,
        match label {
            Some(text) => Some(text@),
            None => None,
        },
        *pattern,
        prefix@,
        *source,
        *suggested,
        *scan,
        *outcome,
        match found {
            Some(pass) => Some(*pass),
            None => None,
        },
        because is Some,
        *recorded,
    ));
    out
}

} // verus!
