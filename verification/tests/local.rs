use std::cell::RefCell;

use openbiz::discovery::{Discovery, DiscoveryProvider, Unavailable};
use openbiz::local::{
    choose_parts, plural, StagedChange, StoredGraph, searched, CorpusPart, Hit, LocalCorpus, LocalVocabularies, PartKind, PartSearch,
};
use openbiz::skos::{LabelKind, LabelQuery, LexicalLabel, MatchQuality, Node};

/// One concept's label, as the fixture writes it: the IRI, the kind, and the text.
type Labelled = (&'static str, LabelKind, &'static str);

/// A corpus held in memory, which can also be told to fail. It searches a part the way the
/// store's model does: every label, anywhere inside it, ignoring case.
struct Fixture {
    parts: Vec<(CorpusPart, Vec<Labelled>)>,
    fails_on: Option<String>,
    listing_fails: bool,
    read: RefCell<Vec<String>>,
}

impl Fixture {
    fn new() -> Self {
        Fixture {
            parts: Vec::new(),
            fails_on: None,
            listing_fails: false,
            read: RefCell::new(Vec::new()),
        }
    }

    fn with(mut self, part: CorpusPart, labels: Vec<Labelled>) -> Self {
        self.parts.push((part, labels));
        self
    }
}

fn search(labels: &[Labelled], query: &LabelQuery) -> PartSearch {
    let wanted = query.text().to_lowercase();
    let mut hits = Vec::new();
    for (iri, kind, text) in labels {
        let lowered = text.to_lowercase();
        let quality = if lowered == wanted {
            MatchQuality::Exact
        } else if lowered.starts_with(&wanted) {
            MatchQuality::Prefix
        } else if lowered.contains(&wanted) {
            MatchQuality::Contains
        } else {
            continue;
        };
        let display = labels
            .iter()
            .find(|(other, kind, _)| other == iri && *kind == LabelKind::Preferred)
            .map(|(_, _, text)| (*text).to_owned());
        hits.push(Hit {
            resource: Node::iri(iri),
            display,
            label: LexicalLabel {
                language: Some("en".to_owned()),
                text: (*text).to_owned(),
            },
            kind: Some(*kind),
            quality,
        });
    }
    PartSearch {
        hits,
        labels_read: labels.len(),
    }
}

impl LocalCorpus for Fixture {
    fn parts(&self) -> Result<Vec<CorpusPart>, Unavailable> {
        match self.listing_fails {
            true => Err(Unavailable::because("the store could not list its graphs")),
            false => Ok(self.parts.iter().map(|(part, _)| part.clone()).collect()),
        }
    }

    fn search_part(
        &self,
        part: &CorpusPart,
        queries: &[LabelQuery],
    ) -> Result<Vec<PartSearch>, Unavailable> {
        if self.fails_on.as_deref() == Some(part.within.as_str()) {
            return Err(Unavailable::because(&format!("{} is unreadable", part.within)));
        }
        self.read.borrow_mut().push(part.within.clone());
        let labels = self
            .parts
            .iter()
            .find(|(candidate, _)| candidate == part)
            .map(|(_, labels)| labels.clone())
            .unwrap_or_default();
        Ok(queries.iter().map(|query| search(&labels, query)).collect())
    }
}

/// A corpus that answers for fewer labels than it was asked about.
struct ShortAnswers;

impl LocalCorpus for ShortAnswers {
    fn parts(&self) -> Result<Vec<CorpusPart>, Unavailable> {
        Ok(vec![CorpusPart::home("urn:home", "this vocabulary")])
    }

    fn search_part(
        &self,
        _part: &CorpusPart,
        _queries: &[LabelQuery],
    ) -> Result<Vec<PartSearch>, Unavailable> {
        Ok(Vec::new())
    }
}

fn query(text: &str) -> LabelQuery {
    LabelQuery::new(text).expect("a query")
}

#[test]
fn a_concept_in_another_vocabulary_is_found() {
    let corpus = Fixture::new()
        .with(CorpusPart::home("urn:home", "this vocabulary"), Vec::new())
        .with(
            CorpusPart::elsewhere(
                "urn:materials",
                "the vocabulary https://example.org/materials",
            ),
            vec![("urn:m:1", LabelKind::Preferred, "Solar power")],
        );
    let source = LocalVocabularies::named("this store", &corpus);

    let answer = source.search(&query("Solar power")).expect("an answer");

    assert_eq!(answer.matches.len(), 1);
    let found = &answer.matches[0];
    assert_eq!(found.resource, Node::iri("urn:m:1"));
    assert_eq!(found.within, "the vocabulary https://example.org/materials");
    assert!(!found.home, "it is not in the vocabulary being authored");
    assert_eq!(found.quality, MatchQuality::Exact);
    assert_eq!(found.display.as_deref(), Some("Solar power"));
    assert_eq!(found.source, "this store");
}

#[test]
fn a_partial_match_is_found_and_ranked_below_an_exact_one() {
    let corpus = Fixture::new().with(
        CorpusPart::home("urn:home", "this vocabulary"),
        vec![
            ("urn:e:1", LabelKind::Preferred, "Solar power generation"),
            ("urn:e:2", LabelKind::Preferred, "Solar power"),
        ],
    );
    let source = LocalVocabularies::named("this store", &corpus);

    let discovered = Discovery::new().across(&[&source], &query("Solar power"));
    let order: Vec<_> = discovered
        .matches()
        .iter()
        .map(|found| found.resource.to_string())
        .collect();

    assert_eq!(order, vec!["<urn:e:2>", "<urn:e:1>"], "{order:?}");
    assert_eq!(discovered.exact().len(), 1);
    assert_eq!(discovered.related().len(), 1);
}

#[test]
fn a_hit_on_an_alternative_label_is_shown_under_the_preferred_one() {
    let corpus = Fixture::new().with(
        CorpusPart::home("urn:home", "this vocabulary"),
        vec![
            ("urn:e:1", LabelKind::Preferred, "Photovoltaics"),
            ("urn:e:1", LabelKind::Alternative, "Solar power"),
        ],
    );
    let source = LocalVocabularies::named("this store", &corpus);

    let answer = source.search(&query("Solar power")).expect("an answer");

    assert_eq!(answer.matches.len(), 1);
    assert_eq!(answer.matches[0].kind, Some(LabelKind::Alternative));
    assert_eq!(answer.matches[0].display.as_deref(), Some("Photovoltaics"));
}

#[test]
fn the_answer_says_what_it_looked_at() {
    let corpus = Fixture::new()
        .with(CorpusPart::home("urn:home", "this vocabulary"), Vec::new())
        .with(
            CorpusPart::elsewhere("urn:other", "the vocabulary urn:other"),
            Vec::new(),
        )
        .with(
            CorpusPart::pending("urn:c3", "candidate 3, which is waiting for a decision"),
            Vec::new(),
        );
    let source = LocalVocabularies::named("this store", &corpus);

    let answer = source.search(&query("anything")).expect("an answer");

    assert_eq!(
        answer.searched,
        "2 vocabularies and 1 change(s) waiting for a decision"
    );
}

#[test]
fn one_vocabulary_is_not_pluralised() {
    let corpus = Fixture::new().with(CorpusPart::home("urn:home", "this vocabulary"), Vec::new());
    let source = LocalVocabularies::named("this store", &corpus);

    assert_eq!(
        source
            .search(&query("anything"))
            .expect("an answer")
            .searched,
        "1 vocabulary"
    );
}

#[test]
fn a_part_that_cannot_be_read_makes_the_source_unavailable() {
    let mut corpus = Fixture::new()
        .with(
            CorpusPart::home("urn:home", "this vocabulary"),
            vec![("urn:e:1", LabelKind::Preferred, "Solar power")],
        )
        .with(
            CorpusPart::elsewhere("urn:other", "the vocabulary urn:other"),
            Vec::new(),
        );
    corpus.fails_on = Some("the vocabulary urn:other".to_owned());
    let source = LocalVocabularies::named("this store", &corpus);

    let discovered = Discovery::new().across(&[&source], &query("Solar power"));

    assert!(
        discovered.is_empty(),
        "a partial answer must not be offered as a whole one"
    );
    assert_eq!(
        discovered.unavailable(),
        vec![("this store", "the vocabulary urn:other is unreadable")]
    );
}

#[test]
fn a_store_that_cannot_list_its_graphs_is_unavailable_not_empty() {
    let mut corpus = Fixture::new();
    corpus.listing_fails = true;
    let source = LocalVocabularies::named("this store", &corpus);

    let discovered = Discovery::new().across(&[&source], &query("Solar power"));

    assert_eq!(discovered.unavailable().len(), 1);
}

#[test]
fn every_part_is_read_exactly_once() {
    let corpus = Fixture::new()
        .with(CorpusPart::home("urn:home", "this vocabulary"), Vec::new())
        .with(
            CorpusPart::elsewhere("urn:other", "the vocabulary urn:other"),
            Vec::new(),
        );
    let source = LocalVocabularies::named("this store", &corpus);

    source.search(&query("anything")).expect("an answer");

    assert_eq!(
        *corpus.read.borrow(),
        vec!["this vocabulary", "the vocabulary urn:other"]
    );
}

#[test]
fn several_labels_cost_one_reading_of_the_corpus() {
    let corpus = Fixture::new()
        .with(
            CorpusPart::home("urn:home", "this vocabulary"),
            vec![("urn:wind", LabelKind::Preferred, "Wind power")],
        )
        .with(
            CorpusPart::elsewhere("urn:other", "the vocabulary urn:other"),
            vec![("urn:tidal", LabelKind::Preferred, "Tidal power")],
        );
    let source = LocalVocabularies::named("this store", &corpus);
    let queries = [query("Wind power"), query("Tidal power"), query("Solar")];

    let answers = source.search_each(&queries).expect("an answer per label");

    assert_eq!(
        *corpus.read.borrow(),
        vec!["this vocabulary", "the vocabulary urn:other"],
        "three labels must not read the store three times"
    );
    assert_eq!(answers.len(), 3);
    assert_eq!(answers[0].matches.len(), 1, "Wind power is at home");
    assert!(answers[0].matches[0].home);
    assert_eq!(answers[1].matches.len(), 1, "Tidal power is elsewhere");
    assert!(!answers[1].matches[0].home);
    assert!(answers[2].matches.is_empty(), "nothing is called Solar");
    for answer in &answers {
        assert_eq!(answer.labels_read, 2);
        assert_eq!(answer.searched, "2 vocabularies");
    }
}

#[test]
fn a_part_that_answers_for_the_wrong_number_of_labels_makes_the_source_unavailable() {
    let source = LocalVocabularies::named("this store", &ShortAnswers);

    let refusal = source
        .search_each(&[query("Wind"), query("Tide")])
        .expect_err("answers that cannot be lined up are no answer");

    assert_eq!(
        refusal.reason,
        "the local store answered 0 of 2 label(s) from this vocabulary, so its answers cannot be told apart"
    );
}

#[test]
fn the_parts_of_a_corpus_say_which_kind_they_are() {
    assert!(CorpusPart::home("a", "b").is_home());
    assert!(!CorpusPart::elsewhere("a", "b").is_home());
    assert!(!CorpusPart::pending("a", "b").is_home());
    assert_eq!(CorpusPart::pending("a", "b").kind, PartKind::Pending);
    assert_eq!(
        CorpusPart::new("urn:x", "the vocabulary urn:x", PartKind::Vocabulary),
        CorpusPart::elsewhere("urn:x", "the vocabulary urn:x")
    );
}

#[test]
fn the_description_of_what_was_searched_is_plain_english() {
    assert_eq!(plural(1), "y");
    assert_eq!(plural(0), "ies");
    assert_eq!(plural(2), "ies");
    assert_eq!(searched(0, 0), "0 vocabularies");
    assert_eq!(searched(1, 0), "1 vocabulary");
    assert_eq!(searched(1, 2), "1 vocabulary and 2 change(s) waiting for a decision");
}

#[test]
fn the_store_is_read_home_first_then_by_iri_then_pending_changes() {
    let graph = |iri: &str, vocabulary: bool| StoredGraph { iri: iri.to_owned(), vocabulary };
    let graphs = vec![
        graph("http://e.org/zoo", true),
        graph("http://e.org/meta", false),
        graph("http://e.org/home", true),
        graph("http://e.org/apes", true),
    ];
    let change = |id: &str, waiting: bool, payload: Option<&str>| StagedChange {
        id: id.to_owned(),
        waiting,
        payload: payload.map(|p| p.to_owned()),
    };
    let changes = vec![
        change("7", true, Some("urn:payload:7")),
        change("8", false, Some("urn:payload:8")),
        change("9", true, None),
        change("10", true, Some("urn:payload:10")),
    ];
    let parts = choose_parts("http://e.org/home", &graphs, &changes);
    let seen: Vec<(&str, &str, PartKind)> = parts
        .iter()
        .map(|part| (part.at.as_str(), part.within.as_str(), part.kind))
        .collect();
    assert_eq!(
        seen,
        vec![
            ("http://e.org/home", "this vocabulary", PartKind::Home),
            ("http://e.org/apes", "the vocabulary http://e.org/apes", PartKind::Vocabulary),
            ("http://e.org/zoo", "the vocabulary http://e.org/zoo", PartKind::Vocabulary),
            ("urn:payload:7", "candidate 7, which is waiting for a decision", PartKind::Pending),
            ("urn:payload:10", "candidate 10, which is waiting for a decision", PartKind::Pending),
        ]
    );
}
