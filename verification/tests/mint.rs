use openbiz::discovery::{Discovery, DiscoveryProvider, Match, SourceAnswer, Unavailable};
use openbiz::mint::{already_here, LADDER, STILL_MINTED};
use openbiz::skos::{LabelKind, LabelQuery, LexicalLabel, MatchQuality, Node};

struct Store {
    matches: Vec<Match>,
}

impl DiscoveryProvider for Store {
    fn name(&self) -> &str {
        "this store"
    }

    fn search(&self, _query: &LabelQuery) -> Result<SourceAnswer, Unavailable> {
        Ok(SourceAnswer {
            labels_read: 9,
            matches: self.matches.clone(),
            searched: "2 vocabularies".to_owned(),
        })
    }
}

fn hit(iri: &str, text: &str, kind: Option<LabelKind>, quality: MatchQuality) -> Match {
    Match {
        source: "this store".to_owned(),
        within: "this vocabulary".to_owned(),
        home: true,
        resource: Node::iri(iri),
        display: Some("Tidal stream generation".to_owned()),
        label: LexicalLabel {
            language: Some("en".to_owned()),
            text: text.to_owned(),
        },
        kind,
        quality,
    }
}

#[test]
fn a_match_is_written_with_its_label_its_kind_and_where_it_lives() {
    assert_eq!(
        openbiz::mint::line(&hit(
            "https://example.org/energy/c_1",
            "Tidal power",
            Some(LabelKind::Alternative),
            MatchQuality::Exact
        )),
        "  <https://example.org/energy/c_1>  (Tidal stream generation)  skos:altLabel \"Tidal \
         power\"@en, in this vocabulary\n"
    );
    let mut untagged = hit("urn:x", "Tidal", None, MatchQuality::Prefix);
    untagged.label.language = None;
    untagged.display = None;
    assert_eq!(openbiz::mint::line(&untagged), "  <urn:x>  labelled \"Tidal\", untagged, in this vocabulary\n");
}

#[test]
fn no_label_and_an_empty_label_each_say_nothing_was_looked_for() {
    assert!(already_here(None, None).contains("nothing was checked for an existing concept"));
    assert!(already_here(Some(""), None).contains("an empty query matches every label there is"));
}

#[test]
fn a_label_already_in_use_is_a_stop_counted_by_concept() {
    let store = Store {
        matches: vec![
            hit("https://example.org/energy/c_1", "Tidal power", Some(LabelKind::Alternative), MatchQuality::Exact),
            hit("https://example.org/energy/c_1", "Tidal power", Some(LabelKind::Hidden), MatchQuality::Exact),
            hit("https://example.org/energy/c_2", "Tidal power plant", Some(LabelKind::Preferred), MatchQuality::Prefix),
        ],
    };
    let query = LabelQuery::new("Tidal power").expect("a query");
    let found = Discovery::new().across(&[&store], &query);
    let report = already_here(Some("Tidal power"), Some(&found));
    assert!(report.starts_with(
        "\nSTOP — \"Tidal power\" is already a label on 1 concept(s) discovery reached:\n"
    ));
    assert!(report.contains("skos:altLabel \"Tidal power\"@en"));
    assert!(report.contains(
        "\nand 1 label(s) contain it, which may be the concept meant under another name:\n"
    ));
    assert!(report.contains(LADDER));
    assert!(report.contains(STILL_MINTED));
    assert!(report.contains("\ndiscovery consulted 1 source(s):\n  this store — 2 vocabularies"));
}

#[test]
fn a_label_nobody_uses_says_so_and_offers_no_ladder() {
    let store = Store { matches: vec![] };
    let query = LabelQuery::new("Tidal power").expect("a query");
    let found = Discovery::new().across(&[&store], &query);
    let report = already_here(Some("Tidal power"), Some(&found));
    assert!(report.starts_with("\nnothing discovery reached is called \"Tidal power\"\n"));
    assert!(!report.contains("reuse outranks creation"));
    assert!(report.contains("no peer, no data catalog, and no public registry was consulted"));
}

#[test]
fn a_readable_local_name_says_what_it_was_reduced_from() {
    let text = openbiz::mint::derivation(&openbiz::mint::MintDerivation::FromLabel {
        label: "Tidal power".to_owned(),
        slug: "tidal-power".to_owned(),
        truncated: false,
    });
    assert!(text.starts_with("  from the label \"Tidal power\", reduced to \"tidal-power\"\n  accented"));
    assert!(text.contains("the IRI stays as it is"));
    assert!(!text.contains("cut at a word boundary"));
}

#[test]
fn a_number_above_a_padded_one_says_why_it_is_not_a_gap() {
    let text = openbiz::mint::derivation(&openbiz::mint::MintDerivation::Numbered {
        number: 913,
        width: 4,
        above: Some(openbiz::mint::HighestNumber {
            number: 912,
            iri: "https://example.org/energy/c_0912".to_owned(),
            pads: true,
        }),
    });
    assert_eq!(
        text,
        "  the highest number in use under this pattern is 912, in \
         https://example.org/energy/c_0912\n  913 is above it, not the lowest free number: a gap \
         is evidence that something was once there, and an IRI must never come back attached to \
         a different concept\n  written with 4 digits, which is how this vocabulary writes them: \
         https://example.org/energy/c_0912\n"
    );
    let first = openbiz::mint::derivation(&openbiz::mint::MintDerivation::Numbered {
        number: 1,
        width: 1,
        above: None,
    });
    assert_eq!(first, "  nothing in this store uses this pattern yet, so this is the first\n");
}

fn record(considered: Vec<&str>, complete: bool) -> openbiz::justifications::JustificationRecord {
    openbiz::justifications::JustificationRecord {
        id: "j1".to_owned(),
        concept: "https://example.org/energy/c_14".to_owned(),
        label: "Tidal power".to_owned(),
        graph: "https://example.org/energy".to_owned(),
        considered: considered.into_iter().map(|c| c.to_owned()).collect(),
        reason: "ours is the stream kind".to_owned(),
        recorded_by: "ada".to_owned(),
        recorded_at: "2025-03-01T09:00:00Z".to_owned(),
        complete,
    }
}

#[test]
fn a_recorded_justification_is_read_back_after_what_it_justifies() {
    assert_eq!(
        openbiz::justifications::entry(&record(vec!["<https://example.org/energy/c_1>"], false), true),
        "\n  j1 — https://example.org/energy/c_14\n    created under \"Tidal power\"\n    in \
         https://example.org/energy\n    1 existing resource(s) passed over:\n      \
         <https://example.org/energy/c_1>\n    because \"ours is the stream kind\"\n    recorded \
         by ada at 2025-03-01T09:00:00Z\n    the search behind this record did not finish\n"
    );
    let plain = openbiz::justifications::entry(&record(vec![], true), false);
    assert!(plain.contains("    nothing existing was found under that label\n"));
    assert!(!plain.contains("    in https://"));
    assert!(!plain.contains("did not finish"));
}

#[test]
fn a_mint_says_what_justification_it_filed() {
    assert_eq!(openbiz::mint::justification_line(None, &Some(record(vec![], true)), None), "");
    assert_eq!(
        openbiz::mint::justification_line(Some("because"), &None, None),
        "\nno justification was recorded: nothing was minted for one to be about\n"
    );
    assert_eq!(
        openbiz::mint::justification_line(
            Some("because"),
            &Some(record(vec!["<https://example.org/energy/c_1>"], false)),
            None
        ),
        "\njustification j1 recorded, in OpenBiz's own graph and not in the vocabulary:\n  \
         \"ours is the stream kind\"\n  recorded by ada at 2025-03-01T09:00:00Z\n  naming 1 \
         existing resource(s) passed over, each queryable as \
         <urn:openbiz:justificationConsidered>\n    <https://example.org/energy/c_1>\n  the \
         search behind it did not finish — a source was unreachable or the match list stopped \
         at its bound — and the record says so\n"
    );
}

#[test]
fn a_mint_report_reads_from_the_label_to_what_is_reserved() {
    let store = Store { matches: vec![] };
    let query = LabelQuery::new("Tidal power").expect("a query");
    let found = Discovery::new().across(&[&store], &query);
    let pattern = openbiz::mint::PatternShown {
        text: "https://example.org/energy/c_{n}".to_owned(),
        readable: false,
    };
    let report = openbiz::mint::report(
        "https://example.org/energy",
        Some("Tidal power"),
        &pattern,
        "https://example.org/energy/c_",
        &openbiz::mint::PatternSource::Inferred,
        &Err("no concept has an IRI".to_owned()),
        &openbiz::mint::MintScan {
            under: 2,
            offered: 5,
            sources: vec![("this vocabulary".to_owned(), 2)],
        },
        &openbiz::mint::MintOutcome::Minted {
            iri: "https://example.org/energy/c_13".to_owned(),
            how: openbiz::mint::MintDerivation::Numbered { number: 13, width: 2, above: None },
        },
        Some(&found),
        None,
        &None,
    );
    assert!(report.starts_with(
        "an IRI for a new concept in https://example.org/energy\nto be called \"Tidal power\"\n\nnothing \
         discovery reached is called \"Tidal power\"\n"
    ));
    assert!(report.contains(
        "\npattern: https://example.org/energy/c_{n}\n  an opaque IRI: the local name means nothing"
    ));
    assert!(report.contains(
        "\nchecked against 2 IRI(s) under https://example.org/energy/c_, out of 5 read:\n  2 in this \
         vocabulary\n\nminted: https://example.org/energy/c_13\n  nothing in this store uses this \
         pattern yet, so this is the first\n"
    ));
    assert!(report.ends_with(
        "\nnothing was written and nothing is reserved: run this again and it answers the same. The \
         IRI becomes taken when a change carrying it is staged — `openbiz import` — and the next \
         mint sees it there.\n"
    ));
}

#[test]
fn a_taken_iri_is_refused_without_a_suffix() {
    let pattern = openbiz::mint::PatternShown {
        text: "https://example.org/energy/{label}".to_owned(),
        readable: true,
    };
    let report = openbiz::mint::report(
        "https://example.org/energy",
        None,
        &pattern,
        "https://example.org/energy/",
        &openbiz::mint::PatternSource::Given { recorded: None },
        &Err("nothing".to_owned()),
        &openbiz::mint::MintScan { under: 0, offered: 0, sources: vec![] },
        &openbiz::mint::MintOutcome::Refused {
            reason: "https://example.org/energy/java is already in use".to_owned(),
            taken: true,
        },
        None,
        Some("because"),
        &None,
    );
    assert!(report.contains("with no label given\n"));
    assert!(report.contains("  nothing in this store uses this namespace yet\n"));
    assert!(report.contains("\nnothing was minted: https://example.org/energy/java is already in use\n"));
    assert!(report.contains("no disambiguating suffix is offered"));
    assert!(report.contains("qualify the term"));
    assert!(report.contains("\nno justification was recorded: nothing was minted for one to be about\n"));
}
