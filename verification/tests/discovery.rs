use std::cell::Cell;

use openbiz::discovery::{
    Discovered, Discovery, DiscoveryBound, DiscoveryProvider, Match, Outcome, SourceAnswer,
    Unavailable,
};
use openbiz::skos::{LabelKind, LabelQuery, LexicalLabel, MatchQuality, Node};

/// A source that answers with whatever it was built with.
struct Fixed {
    name: String,
    answer: Result<SourceAnswer, Unavailable>,
}

impl DiscoveryProvider for Fixed {
    fn name(&self) -> &str {
        &self.name
    }

    fn search(&self, _query: &LabelQuery) -> Result<SourceAnswer, Unavailable> {
        self.answer.clone()
    }
}

fn found(iri: &str, text: &str, quality: MatchQuality, home: bool) -> Match {
    Match {
        source: "a source".to_owned(),
        within: "somewhere".to_owned(),
        home,
        resource: Node::iri(iri),
        display: Some(text.to_owned()),
        label: LexicalLabel {
            language: Some("en".to_owned()),
            text: text.to_owned(),
        },
        kind: Some(LabelKind::Preferred),
        quality,
    }
}

fn answering(name: &str, matches: Vec<Match>) -> Fixed {
    Fixed {
        name: name.to_owned(),
        answer: Ok(SourceAnswer {
            labels_read: matches.len(),
            matches,
            searched: "a fixture".to_owned(),
        }),
    }
}

fn failing(name: &str, reason: &str) -> Fixed {
    Fixed {
        name: name.to_owned(),
        answer: Err(Unavailable::because(reason)),
    }
}

fn query() -> LabelQuery {
    LabelQuery::new("energy").expect("a query")
}

/// A source that answers each query with the matches whose label text is that query, counting
/// how many times it was read.
struct PerLabel {
    matches: Vec<Match>,
    reads: Cell<usize>,
}

impl DiscoveryProvider for PerLabel {
    fn name(&self) -> &str {
        "a source that reads itself"
    }

    fn search(&self, query: &LabelQuery) -> Result<SourceAnswer, Unavailable> {
        self.reads.set(self.reads.get() + 1);
        let matches: Vec<Match> = self
            .matches
            .iter()
            .filter(|found| found.label.text == query.text())
            .cloned()
            .collect();
        Ok(SourceAnswer {
            labels_read: self.matches.len(),
            matches,
            searched: "a fixture".to_owned(),
        })
    }
}

/// A source that answers fewer questions than it was asked.
struct Miscounting;

impl DiscoveryProvider for Miscounting {
    fn name(&self) -> &str {
        "a miscounting source"
    }

    fn search(&self, _query: &LabelQuery) -> Result<SourceAnswer, Unavailable> {
        unreachable!("search_each is overridden")
    }

    fn search_each(&self, _queries: &[LabelQuery]) -> Result<Vec<SourceAnswer>, Unavailable> {
        Ok(vec![SourceAnswer {
            matches: vec![found(
                "http://example.org/wind",
                "wind",
                MatchQuality::Exact,
                true,
            )],
            searched: "a fixture".to_owned(),
            labels_read: 1,
        }])
    }
}

fn written(pass: &Discovered) -> Vec<String> {
    pass.matches()
        .iter()
        .map(|found| found.resource.to_string())
        .collect()
}

#[test]
fn a_pass_over_several_labels_answers_each_one_separately() {
    let source = PerLabel {
        matches: vec![
            found("http://example.org/wind", "wind", MatchQuality::Exact, true),
            found("http://example.org/tidal", "tidal", MatchQuality::Exact, false),
        ],
        reads: Cell::new(0),
    };
    let queries = [
        LabelQuery::new("wind").expect("a query"),
        LabelQuery::new("tidal").expect("a query"),
        LabelQuery::new("solar").expect("a query"),
    ];

    let passes = Discovery::new().across_each(&[&source], &queries);

    assert_eq!(passes.len(), 3);
    assert_eq!(written(&passes[0]), ["<http://example.org/wind>"]);
    assert_eq!(written(&passes[1]), ["<http://example.org/tidal>"]);
    assert!(passes[2].is_empty(), "nothing is called solar");
    for pass in &passes {
        assert_eq!(pass.consulted().len(), 1);
    }
}

#[test]
fn a_source_that_does_not_override_is_asked_once_per_label() {
    let source = PerLabel {
        matches: vec![found(
            "http://example.org/wind",
            "wind",
            MatchQuality::Exact,
            true,
        )],
        reads: Cell::new(0),
    };
    let queries = [
        LabelQuery::new("wind").expect("a query"),
        LabelQuery::new("solar").expect("a query"),
    ];

    let passes = Discovery::new().across_each(&[&source], &queries);

    assert_eq!(source.reads.get(), 2);
    assert_eq!(passes[0].matched(), 1);
    assert_eq!(passes[1].matched(), 0);
}

#[test]
fn a_source_whose_answers_cannot_be_lined_up_is_unavailable_to_every_query() {
    let queries = [
        LabelQuery::new("wind").expect("a query"),
        LabelQuery::new("solar").expect("a query"),
    ];

    let passes = Discovery::new().across_each(&[&Miscounting], &queries);

    assert_eq!(passes.len(), 2);
    for pass in &passes {
        assert!(
            pass.is_empty(),
            "no match may be kept from an answer nothing can align"
        );
        let unavailable = pass.unavailable();
        assert_eq!(unavailable.len(), 1);
        assert!(
            unavailable[0]
                .1
                .contains("asked about 2 label(s) and answered 1"),
            "the reason has to say what went wrong: {}",
            unavailable[0].1
        );
        assert!(
            !unavailable[0].1.contains("  "),
            "a line continuation ate a space: {}",
            unavailable[0].1
        );
    }
}

#[test]
fn a_failing_source_is_unavailable_to_every_label() {
    let queries = [
        LabelQuery::new("wind").expect("a query"),
        LabelQuery::new("solar").expect("a query"),
    ];

    let passes = Discovery::new().across_each(
        &[&failing("a catalog", "the catalog is unreachable")],
        &queries,
    );

    for pass in &passes {
        assert_eq!(
            pass.unavailable(),
            [("a catalog", "the catalog is unreachable")]
        );
    }
}

#[test]
fn one_consultation_record_covers_every_label_of_a_pass() {
    let source = PerLabel {
        matches: vec![
            found("http://example.org/wind", "wind", MatchQuality::Exact, true),
            found("http://example.org/tidal", "tidal", MatchQuality::Exact, false),
        ],
        reads: Cell::new(0),
    };
    let queries = [
        LabelQuery::new("wind").expect("a query"),
        LabelQuery::new("tidal").expect("a query"),
    ];

    let passes = Discovery::new().across_each(&[&source], &queries);
    let merged = Discovered::consulted_across(&passes);

    assert_eq!(
        merged.len(),
        1,
        "one source, asked about two labels, is one source"
    );
    match &merged[0].outcome {
        Outcome::Answered {
            matched,
            searched,
            labels_read,
        } => {
            assert_eq!(*matched, 2, "one match per label, summed");
            assert_eq!(*labels_read, 4, "two labels read, twice");
            assert_eq!(searched, "a fixture");
        }
        Outcome::Unavailable { reason } => panic!("the source answered: {reason}"),
    }
}

#[test]
fn a_source_unavailable_to_one_label_is_unavailable_in_the_merged_record() {
    let answered = Discovery::new().across(&[&answering("a catalog", vec![])], &query());
    let refused =
        Discovery::new().across(&[&failing("a catalog", "the catalog went away")], &query());

    let merged = Discovered::consulted_across(&[answered, refused]);

    assert_eq!(merged.len(), 1);
    match &merged[0].outcome {
        Outcome::Unavailable { reason } => assert_eq!(reason, "the catalog went away"),
        Outcome::Answered { .. } => panic!("a source that failed once has not answered"),
    }
}

#[test]
fn a_source_that_fails_is_reported_and_does_not_block_the_rest() {
    let working = answering(
        "this store",
        vec![found("urn:a", "Energy", MatchQuality::Exact, true)],
    );
    let broken = failing("the catalog", "the catalog did not answer in time");

    let discovered = Discovery::new().across(&[&working, &broken], &query());

    assert_eq!(discovered.matched(), 1, "the working source still answered");
    assert_eq!(
        discovered.unavailable(),
        vec![("the catalog", "the catalog did not answer in time")],
        "the failure is carried, with its reason"
    );
}

#[test]
fn every_source_unavailable_is_an_empty_answer_that_says_why() {
    let broken = failing("the catalog", "unreachable");
    let also = failing("a peer", "refused");

    let discovered = Discovery::new().across(&[&broken, &also], &query());

    assert!(discovered.is_empty());
    assert_eq!(discovered.unavailable().len(), 2);
    assert_eq!(
        discovered.consulted().len(),
        2,
        "a source that could not answer was still consulted, and the report must say so"
    );
}

#[test]
fn exact_matches_rank_above_partial_ones_and_home_above_elsewhere() {
    let elsewhere = answering(
        "a peer",
        vec![
            found("urn:partial", "Energy policy", MatchQuality::Prefix, false),
            found("urn:away", "Energy", MatchQuality::Exact, false),
        ],
    );
    let home = answering(
        "this store",
        vec![found("urn:home", "Energy", MatchQuality::Exact, true)],
    );

    let discovered = Discovery::new().across(&[&elsewhere, &home], &query());
    let order = written(&discovered);

    assert_eq!(
        order,
        vec!["<urn:home>", "<urn:away>", "<urn:partial>"],
        "{order:?}"
    );
    assert_eq!(discovered.exact().len(), 2);
    assert_eq!(discovered.related().len(), 1);
}

#[test]
fn the_bound_withholds_and_counts_what_it_withheld() {
    let many = answering(
        "this store",
        (0..5)
            .map(|n| found(&format!("urn:c{n}"), "Energy", MatchQuality::Exact, false))
            .collect(),
    );

    let discovered = Discovery::new()
        .with_bound(DiscoveryBound { max_matches: 2 })
        .across(&[&many], &query());

    assert_eq!(discovered.matches().len(), 2);
    assert_eq!(
        discovered.matched(),
        5,
        "the total is the total, not the listing"
    );
    assert_eq!(discovered.withheld(), 3);
    assert!(!discovered.is_complete());
}

#[test]
fn a_source_that_found_nothing_still_reports_what_it_searched() {
    let empty = answering("this store", Vec::new());

    let discovered = Discovery::new().across(&[&empty], &query());

    assert!(discovered.is_empty());
    assert!(discovered.is_complete());
    match &discovered.consulted()[0].outcome {
        Outcome::Answered {
            matched, searched, ..
        } => {
            assert_eq!(*matched, 0);
            assert_eq!(searched, "a fixture");
        }
        other => panic!("the source answered: {other:?}"),
    }
}

#[test]
fn no_sources_is_an_empty_pass_with_nobody_consulted() {
    let discovered = Discovery::new().across(&[], &query());

    assert!(discovered.is_empty());
    assert!(discovered.consulted().is_empty());
}

#[test]
fn the_default_bound_is_a_screen_of_twenty() {
    let many = answering(
        "this store",
        (0..25)
            .map(|n| found(&format!("urn:c{n:02}"), "Energy", MatchQuality::Exact, false))
            .collect(),
    );
    let discovered = Discovery::new().across(&[&many], &query());
    assert_eq!(discovered.bound(), DiscoveryBound::default());
    assert_eq!(discovered.matches().len(), 20);
    assert_eq!(discovered.withheld(), 5);
    // The best twenty are the ones listed: ties on everything but the resource order by IRI.
    assert_eq!(written(&discovered)[0], "<urn:c00>");
    assert_eq!(written(&discovered)[19], "<urn:c19>");
}

#[test]
fn a_kind_ranks_preferred_above_alternative_within_a_quality() {
    let mut alternative = found("urn:alt", "Energy", MatchQuality::Exact, false);
    alternative.kind = Some(LabelKind::Alternative);
    let preferred = found("urn:pref", "Energy", MatchQuality::Exact, false);
    let contains = found("urn:inside", "Renewable energy", MatchQuality::Contains, true);
    let source = answering("this store", vec![contains, alternative, preferred]);

    let discovered = Discovery::new().across(&[&source], &query());

    assert_eq!(
        written(&discovered),
        vec!["<urn:pref>", "<urn:alt>", "<urn:inside>"]
    );
}

#[test]
fn unavailability_wins_a_merge_in_either_order() {
    let answered = Outcome::Answered {
        matched: 1,
        searched: "a fixture".to_owned(),
        labels_read: 3,
    };
    let refused = Outcome::Unavailable {
        reason: "gone".to_owned(),
    };
    assert_eq!(
        openbiz::discovery::merge(answered.clone(), refused.clone()),
        refused
    );
    assert_eq!(
        openbiz::discovery::merge(refused.clone(), answered.clone()),
        refused
    );
    assert_eq!(
        openbiz::discovery::merge(answered.clone(), answered),
        Outcome::Answered {
            matched: 2,
            searched: "a fixture".to_owned(),
            labels_read: 6,
        }
    );
}

#[test]
fn a_source_that_failed_twice_keeps_the_first_reason() {
    let first = Discovery::new().across(&[&failing("a catalog", "the catalog went away")], &query());
    let answered = Discovery::new().across(&[&answering("a catalog", vec![])], &query());
    let second = Discovery::new().across(&[&failing("a catalog", "the catalog timed out")], &query());

    let merged = Discovered::consulted_across(&[first, answered, second]);

    assert_eq!(merged.len(), 1);
    match &merged[0].outcome {
        Outcome::Unavailable { reason } => assert_eq!(reason, "the catalog went away"),
        Outcome::Answered { .. } => panic!("a source that failed has not answered"),
    }
}
