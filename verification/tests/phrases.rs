use openbiz::discovery::{Consulted, Discovery, DiscoveryProvider, Outcome, SourceAnswer, Unavailable};
use openbiz::mint::{consulted, consulted_entries, unnameable, MATCHING_NOTE, UNCONSULTED_NOTE};
use openbiz::skos::{LabelKind, LabelQuery, LexicalLabel, MatchQuality, Node};
use openbiz::{deprecate, merge, reinstate};

#[test]
fn a_retirement_counts_its_concepts_as_the_subject_of_a_sentence() {
    assert_eq!(deprecate::concepts(1), "1 concept is");
    assert_eq!(deprecate::concepts(0), "0 concepts are");
    assert_eq!(deprecate::concepts(3), "3 concepts are");
}

#[test]
fn a_reinstatement_counts_its_concepts() {
    assert_eq!(reinstate::concepts(1), "1 concept");
    assert_eq!(reinstate::concepts(0), "0 concepts");
    assert_eq!(reinstate::concepts(12), "12 concepts");
}

#[test]
fn a_merge_counts_the_statements_about_and_at_a_concept() {
    assert_eq!(merge::statements_about(1), "1 statement is about it");
    assert_eq!(merge::statements_about(4), "4 statements are about it");
    assert_eq!(merge::statements_about(0), "0 statements are about it");
    assert_eq!(merge::statements_at(0), "nothing points at");
    assert_eq!(merge::statements_at(1), "1 points at");
    assert_eq!(merge::statements_at(2), "2 point at");
}

#[test]
fn the_consultation_record_names_every_source_and_what_it_did() {
    let entries = vec![
        Consulted {
            source: "this store".to_owned(),
            outcome: Outcome::Answered {
                matched: 2,
                searched: "3 vocabularies".to_owned(),
                labels_read: 140,
            },
        },
        Consulted {
            source: "a peer".to_owned(),
            outcome: Outcome::Unavailable {
                reason: "it refused the connection".to_owned(),
            },
        },
    ];

    let text = consulted_entries(&entries);

    assert_eq!(
        text,
        format!(
            "\ndiscovery consulted 2 source(s):\n\
             \x20 this store — 3 vocabularies, 140 label(s) read, 2 match(es)\n\
             \x20 a peer — UNAVAILABLE: it refused the connection. Nothing above says this term \
             is not there; it says it was not looked for\n\
             {MATCHING_NOTE}{UNCONSULTED_NOTE}"
        )
    );
}

#[test]
fn an_empty_consultation_record_still_says_what_was_not_consulted() {
    let text = consulted_entries(&[]);
    assert!(text.starts_with("\ndiscovery consulted 0 source(s):\n"));
    assert!(text.ends_with(UNCONSULTED_NOTE));
}

struct Blanks;

impl DiscoveryProvider for Blanks {
    fn name(&self) -> &str {
        "this store"
    }

    fn search(&self, _query: &LabelQuery) -> Result<SourceAnswer, Unavailable> {
        let hit = |resource: Node| openbiz::discovery::Match {
            source: "this store".to_owned(),
            within: "this vocabulary".to_owned(),
            home: true,
            resource,
            display: None,
            label: LexicalLabel {
                language: None,
                text: "Energy".to_owned(),
            },
            kind: Some(LabelKind::Preferred),
            quality: MatchQuality::Exact,
        };
        Ok(SourceAnswer {
            matches: vec![
                hit(Node::iri("urn:a")),
                hit(Node::blank("b1")),
                hit(Node::blank("b2")),
            ],
            searched: "1 vocabulary".to_owned(),
            labels_read: 3,
        })
    }
}

#[test]
fn blank_nodes_are_counted_as_unnameable() {
    let query = LabelQuery::new("Energy").expect("a query");
    let found = Discovery::new().across(&[&Blanks], &query);

    assert_eq!(unnameable(&found), 2);
    assert!(consulted(&found).contains("  this store — 1 vocabulary, 3 label(s) read, 3 match(es)\n"));
}
