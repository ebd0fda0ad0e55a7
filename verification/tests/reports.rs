use openbiz::integrity::{closing, verdict_line, Authority, ConditionVerdict, Verdict};
use openbiz::justifications::{empty, NOT_ENFORCED};
use openbiz::inspect::{ClassCount, Inspection, MappingTally, RelationTally, XlTally};
use openbiz::search::withheld_note;

fn outcome(authority: Authority, verdict: Verdict) -> ConditionVerdict {
    ConditionVerdict { authority, verdict }
}

#[test]
fn a_violation_anywhere_decides_the_headline() {
    let outcomes = [
        outcome(Authority::Specification, Verdict::Violated),
        outcome(Authority::OurReading, Verdict::Violated),
        outcome(Authority::Specification, Verdict::Unchecked),
        outcome(Authority::Specification, Verdict::Held),
    ];
    assert_eq!(
        verdict_line(&outcomes),
        "VIOLATED — 2 of 4 condition(s) checked here, 1 of the specification's six, are \
         violated.\nthis graph is not a SKOS vocabulary."
    );
}

#[test]
fn an_unchecked_condition_does_not_read_as_held_in_the_headline() {
    let outcomes = [
        outcome(Authority::Specification, Verdict::Held),
        outcome(Authority::OurReading, Verdict::Unchecked),
    ];
    let line = verdict_line(&outcomes);
    assert!(line.starts_with("UNCHECKED — no violation was found, and 1 of 2 condition(s)"));
    assert!(!line.contains("HELD"));
}

#[test]
fn everything_held_is_said_with_how_much_was_checked() {
    let outcomes = [
        outcome(Authority::Specification, Verdict::Held),
        outcome(Authority::OurReading, Verdict::Held),
    ];
    assert_eq!(
        verdict_line(&outcomes),
        "HELD — all 2 condition(s) were checked over the whole vocabulary and none is violated."
    );
    assert!(closing(&outcomes).starts_with("\n2 condition(s) held. \"Held\" means"));
}

#[test]
fn the_closing_counts_only_what_held() {
    let outcomes = [
        outcome(Authority::Specification, Verdict::Held),
        outcome(Authority::Specification, Verdict::Unchecked),
        outcome(Authority::OurReading, Verdict::Violated),
    ];
    assert_eq!(
        closing(&outcomes),
        "\n1 condition(s) held. \"Held\" means the check ran over this whole vocabulary and found \
         no\ncounter-example — it is a statement about what is in the graph, not about what a \
         later edit might add.\n"
    );
}

#[test]
fn nothing_withheld_adds_nothing() {
    let mut out = "before".to_owned();
    withheld_note(&mut out, 0, 0);
    assert_eq!(out, "before");
}

#[test]
fn withheld_labels_are_counted_with_the_way_to_see_them() {
    let mut out = String::new();
    withheld_note(&mut out, 2, 2);
    assert!(out.starts_with("\n2 more label(s) matched, on 2 retired concept(s), and are not listed"));
    assert!(out.ends_with("run the same search without --current to see them and what each one says to use instead.\n"));
}

#[test]
fn an_empty_justification_report_is_not_a_clean_bill_of_health() {
    let everywhere = empty(None, 5);
    assert!(everywhere.starts_with("\nnothing is recorded\n  which is not the same as"));
    assert!(everywhere.ends_with(NOT_ENFORCED));

    assert!(empty(Some("https://example.org/regions"), 0)
        .starts_with("\nnothing is recorded, here or anywhere in this store\n"));
    assert!(empty(Some("https://example.org/regions"), 3).starts_with(
        "\nnothing is recorded for this vocabulary; the store holds 3 record(s) for others\n"
    ));
}

fn named(iri: &str, label: Option<&str>) -> openbiz::skos::Named {
    openbiz::skos::Named {
        node: openbiz::skos::Node::iri(iri),
        label: label.map(|text| text.to_owned()),
    }
}

#[test]
fn nothing_attached_strands_no_one() {
    let left = openbiz::deprecate::Stranded {
        narrower: vec![],
        top_concept_of: vec![],
        collections: vec![],
        broader: 0,
        related: 0,
        mapped_to: 0,
        incoming: 0,
    };
    let report = openbiz::deprecate::stranded(&left, &openbiz::skos::Node::iri("http://example.org/telegraphy"));
    assert_eq!(
        report,
        "\nNothing in this vocabulary points at <http://example.org/telegraphy> and it points at \
         nothing, so retiring it strands no one.\n"
    );
    assert!(!report.contains("still attached to it"));
}

#[test]
fn a_retirement_names_what_it_strands() {
    let left = openbiz::deprecate::Stranded {
        narrower: vec![named("http://example.org/morse", Some("\"Morse code\"@en"))],
        top_concept_of: vec![named("http://example.org/scheme", None)],
        collections: vec![named("http://example.org/old", None)],
        broader: 1,
        related: 1,
        mapped_to: 1,
        incoming: 7,
    };
    let report = openbiz::deprecate::stranded(&left, &openbiz::skos::Node::iri("http://example.org/telegraphy"));
    assert!(report.starts_with("\nstill attached to it, and untouched — a deprecation"));
    assert!(report.contains(
        "  1 concept is still below it, under a concept nobody should use again: re-parent it \
         with `openbiz move`, or retire it too\n    <http://example.org/morse> (\"Morse code\"@en)\n"
    ));
    assert!(report.contains("it heads the browse tree of 1 scheme, where"));
    assert!(report.contains("    <http://example.org/scheme>\n"));
    assert!(report.contains("1 collection still lists it as a member"));
    assert!(report.contains("1 concept is above it"));
    assert!(report.contains("1 concept is associatively linked to it"));
    assert!(report.contains("1 resource in other vocabularies it is mapped to"));
    assert!(report.contains("  7 statements in this vocabulary point at it in all"));
}

#[test]
fn a_long_list_of_children_names_five_and_counts_the_rest() {
    let narrower = (0..7)
        .map(|i| named(&format!("http://example.org/c{i}"), None))
        .collect();
    let left = openbiz::deprecate::Stranded {
        narrower,
        top_concept_of: vec![],
        collections: vec![],
        broader: 0,
        related: 0,
        mapped_to: 0,
        incoming: 0,
    };
    let report = openbiz::deprecate::stranded(&left, &openbiz::skos::Node::iri("http://example.org/x"));
    assert!(report.contains("7 concepts are still below it"));
    assert!(report.contains("re-parent each with `openbiz move`, or retire them too"));
    assert!(report.contains("<http://example.org/c4>\n    and 2 more\n"));
    assert!(!report.contains("c5"));
}

#[test]
fn a_reinstatement_with_nothing_retired_around_it_says_nothing() {
    assert_eq!(openbiz::reinstate::surroundings(&vec![], &vec![], &vec![]), "");
}

#[test]
fn a_reinstatement_under_a_retired_parent_says_so() {
    let report = openbiz::reinstate::surroundings(
        &vec![named("http://example.org/telegraphy", Some("\"Telegraphy\"@en"))],
        &vec![],
        &vec![named("http://example.org/wireless", None)],
    );
    assert_eq!(
        report,
        "\nstill retired around it — a reinstatement is about one resource, and every one of \
         these is a separate decision:\n  1 concept above it is retired, so this would be a \
         current concept under one nobody should use again: reinstate it too, or move this one \
         with `openbiz move`\n    <http://example.org/telegraphy> (\"Telegraphy\"@en)\n  1 \
         concept is retired and superseded by this one, which was a trail leading to another \
         retired concept and now leads somewhere current:\n    <http://example.org/wireless>\n"
    );
}

#[test]
fn retired_children_are_named_five_at_most() {
    let narrower: Vec<_> = (0..6)
        .map(|i| named(&format!("http://example.org/c{i}"), None))
        .collect();
    let report = openbiz::reinstate::surroundings(&vec![], &narrower, &vec![]);
    assert!(report.contains(
        "  6 concepts below it still retired, by their own decision and untouched by this one\n"
    ));
    assert!(report.ends_with("<http://example.org/c4>\n    and 1 more\n"));
}

fn tally(unmarked: Vec<openbiz::skos::Named>) -> openbiz::inspect::RetirementTally {
    openbiz::inspect::RetirementTally {
        retired: 2,
        retired_concepts: 2,
        concepts: 5,
        dead_ends: 1,
        with_current_children: 1,
        heading_schemes: 1,
        unmarked,
    }
}

#[test]
fn the_retirements_section_counts_the_backlog() {
    let mut out = String::from("before");
    openbiz::inspect::retirements_section(
        &mut out,
        &tally(vec![named("http://example.org/telegraphy", Some("\"Telegraphy\"@en"))]),
    );
    assert_eq!(
        out,
        "before\nretirements:\n  2 resource(s) marked owl:deprecated, 2 of them concepts, out of \
         5 concept(s)\n  owl:deprecated is an OWL 2 annotation with no logical consequences \
         (§5.5), and SKOS defines no status term of its own; nothing about what these resources \
         mean has changed\n  1 record what supersedes them with dcterms:isReplacedBy; 1 record \
         nothing, which is a term gone out of use with no successor and not an omission\n  1 of \
         them still have concepts directly below them that are not retired\n  1 of them are \
         still a scheme's top concept, so a browse of that scheme still starts at a retired \
         concept\n  1 resource(s) record a replacement without being marked owl:deprecated, so \
         every command here reads them as current:\n    <http://example.org/telegraphy>  \
         (\"Telegraphy\"@en)\n    openbiz deprecate writes both statements or neither, so this \
         came from elsewhere; it is the half of a retirement that has no visible effect\n"
    );
}

#[test]
fn a_vocabulary_that_retires_nothing_gets_no_retirements_section() {
    let mut out = String::from("before");
    let nothing = openbiz::inspect::RetirementTally {
        retired: 0,
        retired_concepts: 0,
        concepts: 5,
        dead_ends: 0,
        with_current_children: 0,
        heading_schemes: 0,
        unmarked: vec![],
    };
    openbiz::inspect::retirements_section(&mut out, &nothing);
    assert_eq!(out, "before");
}

fn midway(concept: &str, scheme: &str) -> openbiz::paths::Midway {
    openbiz::paths::Midway {
        concept: named(concept, None),
        scheme: named(scheme, Some("\"Scheme\"@en")),
    }
}

#[test]
fn no_summit_means_no_summits_section() {
    let mut out = String::new();
    openbiz::paths::summits_section(&mut out, &vec![], &vec![midway("http://e.org/a", "http://e.org/s")]);
    assert_eq!(out, "");
}

#[test]
fn a_top_concept_met_part_way_up_is_named_once() {
    let summits = vec![
        openbiz::paths::Summit {
            concept: named("http://e.org/top", Some("\"Top\"@en")),
            schemes: vec![],
        },
        openbiz::paths::Summit {
            concept: named("http://e.org/root", None),
            schemes: vec![named("http://e.org/s", None)],
        },
    ];
    let found = vec![
        midway("http://e.org/mid", "http://e.org/s"),
        midway("http://e.org/root", "http://e.org/s"),
        midway("http://e.org/mid", "http://e.org/s"),
    ];
    let mut out = String::new();
    openbiz::paths::summits_section(&mut out, &summits, &found);
    assert_eq!(
        out,
        "\n2 concept(s) the routes stop at, each having no broader concept:\n  <http://e.org/top>  \
         (\"Top\"@en)\n    and it is a top concept of no scheme here, which SKOS permits: nothing \
         in it makes a concept with no broader concept a scheme's entry point.\n  \
         <http://e.org/root>\n    and it is a top concept of <http://e.org/s>\n\n1 concept(s) on \
         these routes are a scheme's top concept without being where a route stops:\n  \
         <http://e.org/mid> is a top concept of <http://e.org/s>  (\"Scheme\"@en), and this \
         vocabulary puts concepts above it\n  SKOS states nothing relating the two. Its \
         statements about skos:hasTopConcept are S5 to S8 — its domain, its range, its \
         sub-property of skos:inScheme, and its inverse — and none of them mentions \
         skos:broader, so a top concept with a broader concept is legal SKOS and not a defect \
         this report has found.\n"
    );
}

fn plain_inspection() -> openbiz::inspect::Inspection {
    let class = |name: &str, total: usize, inferred: usize| ClassCount {
        name: name.to_owned(),
        total,
        inferred,
    };
    Inspection {
        statements: 12,
        classes: vec![class("skos:Concept", 3, 0), class("skos:ConceptScheme", 1, 1)],
        coverage: vec!["en  3 of 3 concept(s)".to_owned()],
        concepts: 3,
        unlabelled: 0,
        xl: XlTally { labels: 0, with_form: 0, labelled: 0, dumbed_down: 0, links: 0, converses: 0 },
        documentation: vec!["skos:definition  1 of 3 concept(s)".to_owned()],
        refinements: vec![],
        schemes: vec![openbiz::inspect::Grouping {
            named: named("http://e.org/scheme", Some("\"Animals\"@en")),
            count: 1,
            ordered_lists: None,
        }],
        collections: vec![],
        relations: RelationTally {
            hierarchical: 2,
            from_narrower: 1,
            from_mapping: 0,
            associative: 0,
            associative_converses: 0,
            associative_from_mapping: 0,
            stated_transitive: 0,
            polyhierarchical: 0,
        },
        mappings: MappingTally {
            hierarchical: 0,
            from_narrow_match: 0,
            associative: 0,
            exact: 0,
            close: 0,
            close_from_exact: 0,
            mapped: 0,
        },
        retirements: openbiz::inspect::RetirementTally {
            retired: 0,
            retired_concepts: 0,
            concepts: 3,
            dead_ends: 0,
            with_current_children: 0,
            heading_schemes: 0,
            unmarked: vec![],
        },
        derivations: vec!["<http://e.org/scheme> a skos:ConceptScheme  [S7]".to_owned()],
        findings: vec![],
        consistent: true,
        complete: true,
    }
}

#[test]
fn an_inspection_reports_every_section_it_has_in_order() {
    let report = openbiz::inspect::report("http://e.org/animals", &plain_inspection());
    assert_eq!(
        report,
        "<http://e.org/animals>\n  12 statement(s) read\n\n  skos:Concept            3\n  \
         skos:ConceptScheme      1  (1 inferred)\n\nlanguages:\n  en  3 of 3 concept(s)\n  0 \
         concept(s) have no skos:prefLabel in any language\n\ndocumentation:\n  skos:definition  \
         1 of 3 concept(s)\n  §7 states no integrity condition, so an undocumented concept is \
         consistent SKOS; requiring a definition is a Z39.19 / ISO 25964 rule pack\n\nconcept \
         schemes:\n  <http://e.org/scheme>  (\"Animals\"@en)  1 top concept(s)\n\nsemantic \
         relations:\n  2 hierarchical link(s), 1 of them stated as skos:narrower\n  0 \
         associative link(s), 0 converse(s) inferred under S23\n  counted as stated links; \
         S24's transitive closure is not stored — `openbiz ancestors <graph> <concept>` walks \
         it\n\nwhy: 1 fact(s) were inferred rather than stated\n  <http://e.org/scheme> a \
         skos:ConceptScheme  [S7]\n\nfindings: 0\n\nno SKOS integrity condition is violated by \
         this graph.\nfor the verdict on each SKOS integrity condition separately, and which of \
         them this build\ncould check over this vocabulary, run `openbiz integrity <graph>`.\n"
    );
}

#[test]
fn an_inspection_of_a_vocabulary_with_everything_says_so() {
    let mut inspection = plain_inspection();
    inspection.coverage = vec![];
    inspection.unlabelled = 3;
    inspection.xl = openbiz::inspect::XlTally {
        labels: 2,
        with_form: 2,
        labelled: 1,
        dumbed_down: 2,
        links: 1,
        converses: 1,
    };
    inspection.refinements = vec![openbiz::inspect::Refinement {
        property: "http://e.org/gloss".to_owned(),
        kinds: vec!["skos:definition".to_owned(), "skos:note".to_owned()],
    }];
    inspection.collections = vec![openbiz::inspect::Grouping {
        named: named("http://e.org/list", None),
        count: 4,
        ordered_lists: Some(1),
    }];
    inspection.relations.from_mapping = 1;
    inspection.relations.polyhierarchical = 2;
    inspection.relations.stated_transitive = 3;
    inspection.mappings.mapped = 2;
    inspection.mappings.exact = 1;
    inspection.findings = vec![openbiz::inspect::Finding {
        severity: "violation".to_owned(),
        text: "S14: two preferred labels".to_owned(),
    }];
    inspection.consistent = false;
    let report = openbiz::inspect::report("http://e.org/animals", &inspection);
    assert!(report.contains(
        "\nlanguages:\n  none — nothing in this vocabulary carries a SKOS lexical label\n  3 \
         concept(s) have no skos:prefLabel in any language\n"
    ));
    assert!(report.contains(
        "\nskos-xl labels:\n  2 skosxl:Label resource(s), 2 with exactly one literal form\n  1 \
         resource(s) labelled through SKOS-XL, 2 plain SKOS label(s) inferred from them\n  1 \
         link(s) between labels, 1 converse(s) inferred under S62\n"
    ));
    assert!(report.contains(
        "  this vocabulary declares note properties of its own:\n    <http://e.org/gloss> → \
         skos:definition, skos:note\n"
    ));
    assert!(report.contains(
        "\ncollections:\n  <http://e.org/list>  4 member(s), ordered by 1 well-formed list(s)\n"
    ));
    assert!(report.contains(
        "  1 hierarchical and 0 associative link(s) were lifted from mapping links under S41\n"
    ));
    assert!(report.contains("  2 concept(s) have more than one broader concept (polyhierarchy)\n"));
    assert!(report.contains("  3 link(s) stated with skos:broaderTransitive or"));
    assert!(report.contains("\nmappings:\n  0 hierarchical mapping link(s), 0 of them stated as skos:narrowMatch\n"));
    assert!(report.contains("  1 exact and 0 close equivalence mapping link(s), 0 of the close ones inferred under S42\n"));
    assert!(report.contains("  2 resource(s) in this graph carry at least one mapping link\n"));
    assert!(report.contains("\nfindings: 1\n  [violation] S14: two preferred labels\n"));
    assert!(report.contains(
        "\nthis graph violates a SKOS integrity condition and is not a SKOS vocabulary.\n"
    ));
}

#[test]
fn an_abandoned_check_is_not_reported_as_a_pass() {
    let mut inspection = plain_inspection();
    inspection.complete = false;
    let report = openbiz::inspect::report("http://e.org/animals", &inspection);
    assert!(report.contains(
        "\nno SKOS integrity condition is violated by the part of this graph that was checked — \
         one or more checks above were abandoned and say so.\n"
    ));
}

#[test]
fn a_loop_is_closed_on_its_first_concept_and_says_where_it_is_reached_from() {
    let cycle = openbiz::paths::Cycle {
        concepts: vec![
            named("http://e.org/a", Some("\"A\"@en")),
            named("http://e.org/b", None),
        ],
        approach: vec![named("http://e.org/start", None), named("http://e.org/mid", None)],
        derivation: Some(openbiz::paths::CycleDerivation {
            conclusion: "a is broader than itself".to_owned(),
            premise: "a is broader than b, and b than a".to_owned(),
            rule: "S24".to_owned(),
        }),
    };
    let mut out = String::new();
    openbiz::paths::cycles_section(&mut out, &vec![cycle]);
    assert_eq!(
        out,
        "\n1 cycle(s) in the hierarchy at or above it, each one a way up that reaches no summit:\n  \
         <http://e.org/a>  (\"A\"@en) → <http://e.org/b> → <http://e.org/a>  (\"A\"@en)\n    \
         reached from <http://e.org/start> → <http://e.org/mid>\n    a is broader than itself\n    \
         because a is broader than b, and b than a\n    and S24\n  §8.6.8 of the SKOS Reference \
         marks a cycle consistent with the SKOS data model, so this is what the hierarchy says \
         and not a defect this report has found. It is printed because a route that runs into \
         one has no root to reach, and a breadcrumb that simply stopped there would not say \
         why.\n"
    );
}

#[test]
fn a_loop_the_concept_is_in_is_reached_from_it_and_no_loop_says_nothing() {
    let cycle = openbiz::paths::Cycle {
        concepts: vec![named("http://e.org/a", None)],
        approach: vec![],
        derivation: None,
    };
    let mut out = String::new();
    openbiz::paths::cycles_section(&mut out, &vec![cycle]);
    assert!(out.contains(
        "  <http://e.org/a> → <http://e.org/a>\n    reached from the concept asked about, which is \
         in the loop\n  §8.6.8"
    ));
    let mut none = String::from("x");
    openbiz::paths::cycles_section(&mut none, &vec![]);
    assert_eq!(none, "x");
}

fn step(iri: &str, stated: bool) -> openbiz::paths::Step {
    openbiz::paths::Step { concept: named(iri, None), stated }
}

#[test]
fn routes_are_numbered_arrow_chains_with_their_marks_explained() {
    let routes = vec![
        openbiz::paths::Route {
            origin: named("http://e.org/wind", Some("\"Wind\"@en")),
            steps: vec![step("http://e.org/energy", true)],
        },
        openbiz::paths::Route {
            origin: named("http://e.org/wind", Some("\"Wind\"@en")),
            steps: vec![step("http://e.org/power", false), step("http://e.org/things", true)],
        },
    ];
    let mut out = String::new();
    openbiz::paths::routes_section(&mut out, &routes, true, 3, "S24: broaderTransitive is transitive");
    assert_eq!(
        out,
        "\n2 route(s) up to a concept with no broader concept, by 3 link(s) followed:\n  1. \
         <http://e.org/wind>  (\"Wind\"@en) → <http://e.org/energy>\n  2. <http://e.org/wind>  \
         (\"Wind\"@en) ⇢ <http://e.org/power> → <http://e.org/things>  [S24]\n  a route marked \
         [S24] puts its last concept above its first by a conclusion transitivity licensed rather \
         than by a link the graph states: S24: broaderTransitive is transitive\n  a step drawn ⇢ \
         is stated only as skos:broaderTransitive. S22 makes skos:broader a sub-property of \
         skos:broaderTransitive and not the other way round, so such a step says the upper \
         concept is somewhere above the lower one and does not say it is directly above it — \
         there may be levels between them this vocabulary does not name.\n"
    );
}

#[test]
fn no_route_is_either_the_answer_or_the_bound() {
    let mut out = String::new();
    openbiz::paths::routes_section(&mut out, &vec![], true, 0, "S24");
    assert!(out.contains("every way up runs into a cycle"));
    let mut bounded = String::new();
    openbiz::paths::routes_section(&mut bounded, &vec![], false, 0, "S24");
    assert_eq!(
        bounded,
        "\nno route was completed before the enumeration hit its bound, so this is not an answer.\n"
    );
}

#[test]
fn a_paths_report_names_the_concept_and_says_when_it_is_a_lower_bound() {
    let found = openbiz::paths::RootPaths {
        routes: vec![openbiz::paths::Route {
            origin: named("http://e.org/wind", None),
            steps: vec![step("http://e.org/energy", true)],
        }],
        walked: 1,
        complete: false,
        summits: vec![openbiz::paths::Summit {
            concept: named("http://e.org/energy", None),
            schemes: vec![named("http://e.org/scheme", None)],
        }],
        midway: vec![],
        cycles: vec![],
    };
    let report = openbiz::paths::report("http://e.org/g", &named("http://e.org/wind", None), &found, "S24");
    assert!(report.starts_with(
        "<http://e.org/wind>\nin http://e.org/g\n\n1 route(s) up to a concept with no broader \
         concept, by 1 link(s) followed:\n  1. <http://e.org/wind> → <http://e.org/energy>\n\n1 \
         concept(s) the routes stop at"
    ));
    assert!(report.ends_with(
        "\nthe enumeration stopped at its bound, so the routes and the cycles above are both lower \
         bounds: there may be routes it never built and loops it never met, and nothing follows \
         from something being absent from either list.\n"
    ));
}

fn retirement(replacement: Option<openbiz::skos::Named>) -> openbiz::deprecate::Retirement {
    openbiz::deprecate::Retirement {
        concept: named("http://example.org/wireless", Some("\"Wireless\"@en")),
        marks: true,
        replacement,
        note: Some(openbiz::deprecate::ChangeNote {
            language: Some("en".to_owned()),
            text: "Superseded by broadcasting terms.".to_owned(),
        }),
        stranded: openbiz::deprecate::Stranded {
            narrower: vec![],
            top_concept_of: vec![],
            collections: vec![],
            broader: 0,
            related: 0,
            mapped_to: 0,
            incoming: 0,
        },
        additions: vec![
            "<http://example.org/wireless> owl:deprecated \"true\"^^<http://www.w3.org/2001/XMLSchema#boolean>".to_owned(),
        ],
    }
}

#[test]
fn a_retirement_report_reads_in_the_order_it_is_needed() {
    let report = openbiz::deprecate::report(
        "http://example.org/thesaurus",
        &retirement(Some(named("http://example.org/radio", None))),
        &vec![("the vocabulary http://example.org/other".to_owned(), 2)],
        &Some(vec![("the vocabulary http://example.org/other".to_owned(), 3)]),
        "4",
        "http://example.org/thesaurus",
    );
    assert!(report.starts_with(
        "<http://example.org/wireless> (\"Wireless\"@en)\ndeprecated — kept in the vocabulary, \
         marked no longer current\nin http://example.org/thesaurus\n\nreplaced by \
         <http://example.org/radio>\n  a signpost and not a rewrite"
    ));
    assert!(report.contains(
        "\n<http://example.org/radio> is not in this vocabulary. It is known here:\n  3 statements \
         in the vocabulary http://example.org/other\n"
    ));
    assert!(report.contains(
        "\nrecorded as a skos:changeNote in en: Superseded by broadcasting terms.\n"
    ));
    assert!(report.contains("so retiring it strands no one.\n"));
    assert!(report.contains(
        "only this graph says so:\n  2 in the vocabulary http://example.org/other\n"
    ));
    assert!(report.contains(
        "\nit would add:\n  <http://example.org/wireless> owl:deprecated \
         \"true\"^^<http://www.w3.org/2001/XMLSchema#boolean>\nand remove nothing — that is what \
         makes this a retirement and not a deletion.\n"
    ));
    assert!(report.ends_with(
        "\nproposed candidate 4 against http://example.org/thesaurus. Nothing has been written to \
         the vocabulary. Review it with `openbiz candidate 4`, then `openbiz approve 4` or \
         `openbiz reject 4`.\n"
    ));
}

#[test]
fn a_replacement_known_nowhere_is_warned_about() {
    let mut unreplaced = retirement(None);
    unreplaced.note = Some(openbiz::deprecate::ChangeNote { language: None, text: "gone".to_owned() });
    let report = openbiz::deprecate::report("g", &unreplaced, &vec![], &None, "1", "g");
    assert!(report.contains("\nwith nothing recorded as replacing it."));
    assert!(report.contains(", untagged — this concept has no one preferred-language label"));
    let warned = openbiz::deprecate::report(
        "g",
        &retirement(Some(named("http://example.org/radoi", None))),
        &vec![],
        &Some(vec![]),
        "1",
        "g",
    );
    assert!(warned.contains(
        "\nwarning: nothing anywhere in this store says anything about <http://example.org/radoi>. \
         dcterms:isReplacedBy may point"
    ));
    assert!(!warned.contains("is also mentioned outside"));
}

fn reinstatement() -> openbiz::reinstate::Reinstatement {
    openbiz::reinstate::Reinstatement {
        resource: named("http://example.org/telegraphy", Some("\"Telegraphy\"@en")),
        was_marked: true,
        replacements: vec![named("http://example.org/radio", Some("\"Radio\"@en"))],
        kept_notes: vec!["\"Retired in 2019.\"@en".to_owned()],
        note: None,
        unread: vec![],
        removals: vec!["<http://example.org/telegraphy> owl:deprecated true".to_owned()],
        additions: vec![],
    }
}

#[test]
fn a_reinstatement_report_says_what_comes_out_and_what_stays() {
    let report = openbiz::reinstate::report(
        "http://example.org/thesaurus",
        &reinstatement(),
        &vec![],
        &vec![],
        &vec![],
        &vec![],
        "9",
        "http://example.org/thesaurus",
    );
    assert!(report.starts_with(
        "<http://example.org/telegraphy> (\"Telegraphy\"@en)\nreinstated — the owl:deprecated \
         marker comes out, and nothing else about it changes\nin http://example.org/thesaurus\n\nit \
         stops recording that it is superseded by:\n  <http://example.org/radio> (\"Radio\"@en)\n  \
         dcterms:isReplacedBy says"
    ));
    assert!(report.contains(
        "\n1 skos:changeNote is kept, including whichever explained the retirement."
    ));
    assert!(report.contains("replace:\n  \"Retired in 2019.\"@en\n"));
    assert!(report.contains(
        "\nit would remove:\n  <http://example.org/telegraphy> owl:deprecated true\nand add \
         nothing.\n"
    ));
    assert!(report.ends_with("`openbiz approve 9` or `openbiz reject 9`.\n"));
    assert!(!report.contains("still retired around it"));
}

#[test]
fn unread_retirement_statements_are_left_and_counted() {
    let mut back = reinstatement();
    back.unread = vec!["a".to_owned(), "b".to_owned()];
    back.kept_notes = vec![];
    back.additions = vec!["c".to_owned()];
    let report = openbiz::reinstate::report("g", &back, &vec![], &vec![], &vec![], &vec![("the vocabulary h".to_owned(), 2)], "1", "g");
    assert!(report.contains(
        "\n2 further owl:deprecated statements about it are left in place: nothing in this build \
         reads them as a retirement"
    ));
    assert!(!report.contains("skos:changeNote is kept"));
    assert!(report.contains("goes on doing so:\n  2 in the vocabulary h\n"));
    assert!(report.contains("and add:\n  c\n"));
    assert_eq!(openbiz::reinstate::kept_notes(&vec![]), "");
}

#[test]
fn what_is_retired_around_a_concept_is_chosen_from_what_surrounds_it() {
    let retired = |iri: &str, replaced_by: Vec<&str>| openbiz::reinstate::RetiredNode {
        named: named(iri, None),
        replaced_by: replaced_by.into_iter().map(openbiz::skos::Node::iri).collect(),
    };
    let here = openbiz::skos::Node::iri("http://e.org/telegraphy");
    let text = openbiz::reinstate::retired_around(
        &here,
        vec![named("http://e.org/comms", None), named("http://e.org/signals", None)],
        vec![named("http://e.org/morse", None)],
        vec![
            retired("http://e.org/signals", vec![]),
            retired("http://e.org/telegraphy", vec!["http://e.org/telegraphy"]),
            retired("http://e.org/wireless", vec!["http://e.org/radio", "http://e.org/telegraphy"]),
        ],
    );
    assert_eq!(
        text,
        "\nstill retired around it — a reinstatement is about one resource, and every one of \
         these is a separate decision:\n  1 concept above it is retired, so this would be a \
         current concept under one nobody should use again: reinstate it too, or move this one \
         with `openbiz move`\n    <http://e.org/signals>\n  1 concept is retired and superseded \
         by this one, which was a trail leading to another retired concept and now leads \
         somewhere current:\n    <http://e.org/wireless>\n"
    );
}

#[test]
fn a_retirement_tally_is_counted_from_what_the_vocabulary_says() {
    let node = openbiz::skos::Node::iri;
    let facts = |iri: &str, is_concept: bool, replaced_by: usize, children: Vec<&str>, heads_scheme: bool| {
        openbiz::inspect::RetiredFacts {
            node: node(iri),
            is_concept,
            replaced_by,
            children: children.into_iter().map(openbiz::skos::Node::iri).collect(),
            heads_scheme,
        }
    };
    // Wireless keeps Aerials, which is retired; Aerials keeps Masts, which is not.
    let retired = vec![
        facts("http://e.org/wireless", true, 1, vec!["http://e.org/aerials"], true),
        facts("http://e.org/aerials", true, 0, vec!["http://e.org/masts"], false),
    ];
    let counted = openbiz::inspect::tally(5, &retired, vec![named("http://e.org/telegraphy", None)]);
    assert_eq!(counted.retired, 2);
    assert_eq!(counted.retired_concepts, 2);
    assert_eq!(counted.concepts, 5);
    assert_eq!(counted.dead_ends, 1);
    assert_eq!(counted.with_current_children, 1);
    assert_eq!(counted.heading_schemes, 1);
    let mut out = String::new();
    openbiz::inspect::retirements_section(&mut out, &counted);
    assert!(out.contains("2 resource(s) marked owl:deprecated, 2 of them concepts, out of 5 concept(s)"));
    assert!(out.contains("1 record what supersedes them with dcterms:isReplacedBy; 1 record nothing"));
    assert!(out.contains("1 of them still have concepts directly below them that are not retired"));
}

#[test]
fn a_class_is_counted_with_how_many_of_its_instances_were_inferred() {
    let count = openbiz::inspect::class_count("skos:ConceptScheme".to_owned(), &vec![false, true, true]);
    assert_eq!(count.name, "skos:ConceptScheme");
    assert_eq!(count.total, 3);
    assert_eq!(count.inferred, 2);
}
