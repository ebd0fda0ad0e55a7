use openbiz::mint::{
    compared_with_convention, policy_line, source_of_pattern, Evidence, PatternShown, PatternSource,
    Suggestion,
};
use openbiz::policy::{show, RecordedPolicy};

fn pattern(text: &str, readable: bool) -> PatternShown {
    PatternShown { text: text.to_owned(), readable }
}

fn recorded(parsed: Result<PatternShown, String>, text: &str) -> RecordedPolicy {
    RecordedPolicy {
        pattern: text.to_owned(),
        parsed,
        recorded_by: "ada@example.org".to_owned(),
        recorded_at: "2025-03-01T09:00:00Z".to_owned(),
    }
}

const NUMBERED: &str = "https://example.org/energy/c_{n}";

fn suggests(text: &str, readable: bool) -> Result<Suggestion, String> {
    Ok(Suggestion {
        pattern: pattern(text, readable),
        evidence: Evidence {
            concepts: 12,
            namespace: "https://example.org/energy/".to_owned(),
            namespace_count: 11,
            fixed_part: Some(("c_".to_owned(), 10)),
            numbered: 10,
            namespaces: 2,
        },
    })
}

#[test]
fn nothing_recorded_shows_what_the_concepts_suggest_and_how_to_record_one() {
    let report = show("https://example.org/energy", &None, &suggests(NUMBERED, false));
    assert_eq!(
        report,
        "the IRI-minting policy for https://example.org/energy\n\nnothing is recorded, so \
         `openbiz mint` reads a pattern off this vocabulary's own concepts each time it runs\n  \
         its own concepts suggest https://example.org/energy/c_{n}\n  an opaque IRI: the local \
         name means nothing, so nothing about the concept can make it wrong\n  an inferred \
         pattern is a reading of the concepts as they stand, so it moves as they grow: a \
         vocabulary that acquires concepts in a second namespace can change its own convention \
         part-way through, and the IRIs on both sides of that are already permanent\n  record \
         one with: openbiz policy https://example.org/energy --pattern <p>\n"
    );
}

#[test]
fn nothing_recorded_and_nothing_suggested_says_nothing_can_be_minted() {
    let report = show("https://example.org/energy", &None, &Err("no concept has an IRI".to_owned()));
    assert!(report.contains(
        "  and they suggest nothing: no concept has an IRI. Nothing can be minted here until a \
         pattern is recorded or given with --pattern\n"
    ));
}

#[test]
fn a_recorded_pattern_that_agrees_with_the_concepts_says_so() {
    let policy = recorded(Ok(pattern(NUMBERED, false)), NUMBERED);
    let report = show("https://example.org/energy", &Some(policy), &suggests(NUMBERED, false));
    assert_eq!(
        report,
        "the IRI-minting policy for https://example.org/energy\n\nrecorded: \
         https://example.org/energy/c_{n}\n  an opaque IRI: the local name means nothing, so \
         nothing about the concept can make it wrong\n  recorded by ada@example.org at \
         2025-03-01T09:00:00Z\n  which is also what this vocabulary's own concepts suggest\n  \
         every producer mints under this: an import, a match against another vocabulary, and a \
         curator at this command line all get the same answer\n"
    );
}

#[test]
fn a_recorded_pattern_that_disagrees_is_not_called_a_risky_mint() {
    let readable = "https://example.org/energy/{label}";
    let policy = recorded(Ok(pattern(readable, true)), readable);
    let report = show("https://example.org/energy", &Some(policy), &suggests(NUMBERED, false));
    assert!(report.contains("a readable IRI"));
    assert!(report.contains("suggest https://example.org/energy/c_{n} instead"));
    assert!(report.contains("its recorded policy and the IRIs it already holds disagree"));
    assert!(!report.contains("minting under a different pattern"));
}

#[test]
fn an_unreadable_recorded_pattern_is_shown_as_it_was_recorded() {
    let policy = recorded(Err("it has no placeholder at all".to_owned()), "https://example.org/x");
    let report = show("https://example.org/energy", &Some(policy), &suggests(NUMBERED, false));
    assert_eq!(
        report,
        "the IRI-minting policy for https://example.org/energy\n\nrecorded, and unusable: \
         \"https://example.org/x\"\n  this build cannot read it: it has no placeholder at all\n  \
         recorded by ada@example.org at 2025-03-01T09:00:00Z\n  nothing can be minted for this \
         vocabulary until a pattern this build accepts is recorded\n"
    );
}

#[test]
fn a_pattern_chosen_against_the_convention_is_called_legitimate_and_risky() {
    assert_eq!(
        compared_with_convention(&pattern("urn:x:{n}", false), &suggests(NUMBERED, false), true),
        "  this vocabulary's own concepts suggest https://example.org/energy/c_{n} instead; \
         minting under a different pattern is legitimate and it is also how a concept ends up in \
         the wrong namespace\n"
    );
    assert_eq!(
        compared_with_convention(&pattern(NUMBERED, false), &Err("no concepts".to_owned()), true),
        "  this vocabulary suggests nothing to compare it with: no concepts\n"
    );
    assert!(policy_line(true).starts_with("  a readable IRI"));
}

#[test]
fn a_given_pattern_that_steps_over_a_recorded_one_names_the_decision() {
    let policy = recorded(Ok(pattern(NUMBERED, false)), NUMBERED);
    let text = source_of_pattern(
        &pattern("urn:x:{n}", false),
        &PatternSource::Given { recorded: Some(policy) },
        &suggests(NUMBERED, false),
    );
    assert_eq!(
        text,
        "  given with --pattern, for this one command\n  this vocabulary records \
         \"https://example.org/energy/c_{n}\" instead, set by ada@example.org at \
         2025-03-01T09:00:00Z; that record is unchanged and every other producer still mints \
         under it. Use `openbiz policy` if the recorded pattern is the one that should change\n  \
         this vocabulary's own concepts suggest https://example.org/energy/c_{n} instead; minting \
         under a different pattern is legitimate and it is also how a concept ends up in the \
         wrong namespace\n"
    );
}

#[test]
fn a_given_pattern_with_nothing_recorded_applies_to_this_command_only() {
    let text = source_of_pattern(
        &pattern(NUMBERED, false),
        &PatternSource::Given { recorded: None },
        &suggests(NUMBERED, false),
    );
    assert!(text.contains("this pattern applies to this command and to nothing else"));
    assert!(text.ends_with("  which is also what this vocabulary's own concepts suggest\n"));
}

#[test]
fn a_recorded_pattern_is_what_every_producer_mints_under() {
    let policy = recorded(Ok(pattern(NUMBERED, false)), NUMBERED);
    let text = source_of_pattern(
        &pattern(NUMBERED, false),
        &PatternSource::Recorded(policy),
        &suggests(NUMBERED, false),
    );
    assert!(text.starts_with(
        "  recorded for this vocabulary by ada@example.org at 2025-03-01T09:00:00Z, so every \
         producer mints under it — an import"
    ));
    assert!(text.ends_with(
        "  give --pattern to mint once under a different one, or `openbiz policy` to change what \
         is recorded\n"
    ));
}

#[test]
fn an_inferred_pattern_says_what_it_was_read_from_and_that_it_moves() {
    let text = source_of_pattern(
        &pattern(NUMBERED, false),
        &PatternSource::Inferred,
        &suggests(NUMBERED, false),
    );
    assert_eq!(
        text,
        "  read off this vocabulary: 11 of its 12 concept(s) are in https://example.org/energy/, \
         and 10 of those have a number after \"c_\"\n  2 namespace(s) are in use here; the others \
         are not minted into\n  nothing is recorded for this vocabulary, so this was inferred from \
         its own concepts and is a reading of them as they stand now: it changes when they do, \
         and two producers reading it at different times can disagree\n  record it with `openbiz \
         policy` to fix it for every producer, or give --pattern to override it once\n"
    );
}

#[test]
fn recording_a_policy_says_what_it_replaced() {
    let previous = recorded(Ok(pattern(NUMBERED, false)), NUMBERED);
    let now = recorded(Ok(pattern("https://example.org/energy/{label}", true)), "https://example.org/energy/{label}");
    let report = openbiz::policy::recorded_report(
        "https://example.org/energy",
        &pattern("https://example.org/energy/{label}", true),
        &now,
        &Some(previous),
        &suggests(NUMBERED, false),
    );
    assert!(report.starts_with(
        "recorded the IRI-minting policy for https://example.org/energy\n\npattern: \
         https://example.org/energy/{label}\n  a readable IRI"
    ));
    assert!(report.contains("minting under a different pattern is legitimate"));
    assert!(report.contains(
        "\nthis replaced \"https://example.org/energy/c_{n}\", recorded by ada@example.org at \
         2025-03-01T09:00:00Z. That earlier pattern is no longer kept anywhere"
    ));
    assert!(report.ends_with("a curator running `openbiz mint`\n"));
    let first = openbiz::policy::recorded_report(
        "https://example.org/energy",
        &pattern(NUMBERED, false),
        &recorded(Ok(pattern(NUMBERED, false)), NUMBERED),
        &None,
        &suggests(NUMBERED, false),
    );
    assert!(first.contains("\nthis vocabulary had no recorded pattern before now\n"));
}
