//! Inspecting a vocabulary: the report of what it holds in SKOS terms, section by section.

use vstd::prelude::*;

use crate::skos::{named_text, node_same, push_named, Named, Node};
use crate::text::{decimal, push_char, push_count, push_str, string_of};

verus! {

/// What the vocabulary has retired, counted, and what records a replacement without being
/// retired.
#[derive(Debug, Clone, PartialEq, Eq)]
pub struct RetirementTally {
    /// How many resources are marked `owl:deprecated`.
    pub retired: usize,
    /// How many of those are concepts.
    pub retired_concepts: usize,
    /// How many concepts the vocabulary has in all.
    pub concepts: usize,
    /// How many of the retired resources record nothing as replacing them.
    pub dead_ends: usize,
    /// How many of the retired resources still have a current concept directly below them.
    pub with_current_children: usize,
    /// How many of the retired resources are still a scheme's top concept.
    pub heading_schemes: usize,
    /// The resources that record a replacement without being marked `owl:deprecated`.
    pub unmarked: Vec<Named>,
}

/// The dead ends are among the retired resources.
pub open spec fn tally_consistent(tally: RetirementTally) -> bool {
    tally.dead_ends <= tally.retired
}

/// The vocabulary retires nothing and records no replacement.
pub open spec fn retires_nothing(tally: RetirementTally) -> bool {
    tally.retired == 0 && tally.unmarked@.len() == 0
}

/// Each resource that records a replacement without being retired, on a line of its own.
pub open spec fn unmarked_lines(items: Seq<Named>) -> Seq<char>
    decreases items.len(),
{
    if items.len() == 0 {
        Seq::empty()
    } else {
        unmarked_lines(items.drop_last()) + "    "@ + named_text(items.last(), "  "@) + "\n"@
    }
}

/// The part of the section on resources that record a replacement without being retired.
pub open spec fn unmarked_text(items: Seq<Named>) -> Seq<char> {
    if items.len() == 0 {
        Seq::empty()
    } else {
        "  "@ + decimal(items.len())
            + " resource(s) record a replacement without being marked owl:deprecated, so every command here reads them as current:\n"@
            + unmarked_lines(items)
            + "    openbiz deprecate writes both statements or neither, so this came from elsewhere; it is the half of a retirement that has no visible effect\n"@
    }
}

/// A line that counts `count` of the retired resources, or nothing when none.
pub open spec fn of_them_text(count: nat, rest: Seq<char>) -> Seq<char> {
    if count == 0 {
        Seq::empty()
    } else {
        "  "@ + decimal(count) + rest
    }
}

/// The opening of the section on retirements: the counts, and what the marker means.
pub open spec fn tally_text(tally: RetirementTally) -> Seq<char> {
        "\nretirements:\n  "@ + decimal(tally.retired as nat) + " resource(s) marked owl:deprecated, "@
            + decimal(tally.retired_concepts as nat) + " of them concepts, out of "@
            + decimal(tally.concepts as nat) + " concept(s)\n"@
            + "  owl:deprecated is an OWL 2 annotation with no logical consequences (\u{a7}5.5), and SKOS defines no status term of its own; nothing about what these resources mean has changed\n"@
            + "  "@ + decimal((tally.retired - tally.dead_ends) as nat)
            + " record what supersedes them with dcterms:isReplacedBy; "@
            + decimal(tally.dead_ends as nat)
            + " record nothing, which is a term gone out of use with no successor and not an omission\n"@
}

/// The report's section on retirements; nothing at all for a vocabulary that retires nothing.
pub open spec fn retirements_text(tally: RetirementTally) -> Seq<char> {
    if retires_nothing(tally) {
        Seq::empty()
    } else {
        tally_text(tally) + of_them_text(
            tally.with_current_children as nat,
            " of them still have concepts directly below them that are not retired\n"@,
        ) + of_them_text(
            tally.heading_schemes as nat,
            " of them are still a scheme's top concept, so a browse of that scheme still starts at a retired concept\n"@,
        ) + unmarked_text(tally.unmarked@)
    }
}

/// Appends a line counting `count` of the retired resources, when there are any.
fn push_of_them(out: &mut String, count: usize, rest: &str)
    ensures
        final(out)@ == old(out)@ + of_them_text(count as nat, rest@),
{
    if count != 0 {
        push_str(out, "  ");
        push_count(out, count);
        push_str(out, rest);
    }
    assert(out@ =~= old(out)@ + of_them_text(count as nat, rest@));
}

fn push_unmarked(out: &mut String, items: &Vec<Named>)
    ensures
        final(out)@ == old(out)@ + unmarked_text(items@),
{
    let n = items.len();
    if n == 0 {
        assert(out@ =~= old(out)@ + unmarked_text(items@));
        return;
    }
    push_str(out, "  ");
    push_count(out, n);
    push_str(
        out,
        " resource(s) record a replacement without being marked owl:deprecated, so every command here reads them as current:\n",
    );
    let ghost heading = out@;
    let mut i: usize = 0;
    while i < n
        invariant
            n == items@.len(),
            i <= n,
            out@ == heading + unmarked_lines(items@.take(i as int)),
        decreases n - i,
    {
        let ghost before = out@;
        push_str(out, "    ");
        push_named(out, &items[i], "  ");
        push_str(out, "\n");
        proof {
            let next = items@.take(i + 1 as int);
            assert(next.drop_last() =~= items@.take(i as int));
            assert(out@ =~= before + "    "@ + named_text(next.last(), "  "@) + "\n"@);
        }
        i = i + 1;
    }
    assert(items@.take(n as int) =~= items@);
    push_str(
        out,
        "    openbiz deprecate writes both statements or neither, so this came from elsewhere; it is the half of a retirement that has no visible effect\n",
    );
    assert(out@ =~= old(out)@ + unmarked_text(items@));
}

/// Appends the opening of the section on retirements.
#[verifier::spinoff_prover]
#[verifier::rlimit(40)]
fn push_tally(out: &mut String, tally: &RetirementTally)
    requires
        tally_consistent(*tally),
    ensures
        final(out)@ == old(out)@ + tally_text(*tally),
{
    push_str(out, "\nretirements:\n  ");
    push_count(out, tally.retired);
    push_str(out, " resource(s) marked owl:deprecated, ");
    push_count(out, tally.retired_concepts);
    push_str(out, " of them concepts, out of ");
    push_count(out, tally.concepts);
    push_str(out, " concept(s)\n");
    push_str(
        out,
        "  owl:deprecated is an OWL 2 annotation with no logical consequences (\u{a7}5.5), and SKOS defines no status term of its own; nothing about what these resources mean has changed\n",
    );
    push_str(out, "  ");
    push_count(out, tally.retired - tally.dead_ends);
    push_str(out, " record what supersedes them with dcterms:isReplacedBy; ");
    push_count(out, tally.dead_ends);
    push_str(
        out,
        " record nothing, which is a term gone out of use with no successor and not an omission\n",
    );
    assert(out@ =~= old(out)@ + tally_text(*tally));
}

/// Appends the report's section on what the vocabulary has retired: how many resources, how many
/// of them concepts, that the marker changes nothing, how many record a successor, the work they
/// leave (current children, schemes headed), and what records a replacement without being
/// retired. Appends nothing for a vocabulary that retires nothing.
pub fn retirements_section(out: &mut String, tally: &RetirementTally)
    requires
        tally_consistent(*tally),
    ensures
        final(out)@ == old(out)@ + retirements_text(*tally),
{
    if tally.retired == 0 && tally.unmarked.len() == 0 {
        assert(out@ =~= old(out)@ + retirements_text(*tally));
        return;
    }
    push_tally(out, tally);
    push_of_them(
        out,
        tally.with_current_children,
        " of them still have concepts directly below them that are not retired\n",
    );
    push_of_them(
        out,
        tally.heading_schemes,
        " of them are still a scheme's top concept, so a browse of that scheme still starts at a retired concept\n",
    );
    push_unmarked(out, &tally.unmarked);
    assert(out@ =~= old(out)@ + retirements_text(*tally));
}

/// How many instances of one SKOS class the vocabulary has, and how many of them were inferred.
#[derive(Debug, Clone, PartialEq, Eq)]
pub struct ClassCount {
    /// The class, as the report names it.
    pub name: String,
    /// How many resources are of it.
    pub total: usize,
    /// How many of them are of it by inference rather than by statement.
    pub inferred: usize,
}

/// The SKOS-XL labels of a vocabulary, counted.
#[derive(Debug, Clone, Copy, PartialEq, Eq)]
pub struct XlTally {
    /// How many `skosxl:Label` resources there are.
    pub labels: usize,
    /// How many of those have exactly one literal form.
    pub with_form: usize,
    /// How many resources are labelled through SKOS-XL.
    pub labelled: usize,
    /// How many plain SKOS labels were inferred from SKOS-XL ones.
    pub dumbed_down: usize,
    /// How many links there are between labels.
    pub links: usize,
    /// How many of those links' converses were inferred.
    pub converses: usize,
}

/// A note property the vocabulary declared for itself, and the SKOS note kinds it refines.
#[derive(Debug, Clone, PartialEq, Eq)]
pub struct Refinement {
    /// The property's IRI.
    pub property: String,
    /// The note kinds it refines, as the report names them.
    pub kinds: Vec<String>,
}

/// A concept scheme or a collection, with what the report counts of it.
#[derive(Debug, Clone, PartialEq, Eq)]
pub struct Grouping {
    /// The scheme or collection.
    pub named: Named,
    /// Its top concepts, for a scheme; its members, for a collection.
    pub count: usize,
    /// For an ordered collection, how many of its member lists are well formed.
    pub ordered_lists: Option<usize>,
}

/// The semantic relations of a vocabulary, counted as links.
#[derive(Debug, Clone, Copy, PartialEq, Eq)]
pub struct RelationTally {
    /// Hierarchical links.
    pub hierarchical: usize,
    /// Of those, how many were stated as `skos:narrower`.
    pub from_narrower: usize,
    /// Hierarchical links lifted from mapping links.
    pub from_mapping: usize,
    /// Associative links.
    pub associative: usize,
    /// Of those, how many converses were inferred.
    pub associative_converses: usize,
    /// Associative links lifted from mapping links.
    pub associative_from_mapping: usize,
    /// Links stated with `skos:broaderTransitive` or `skos:narrowerTransitive` themselves.
    pub stated_transitive: usize,
    /// Concepts with more than one broader concept.
    pub polyhierarchical: usize,
}

/// The mapping links of a vocabulary, counted as links.
#[derive(Debug, Clone, Copy, PartialEq, Eq)]
pub struct MappingTally {
    /// Hierarchical mapping links.
    pub hierarchical: usize,
    /// Of those, how many were stated as `skos:narrowMatch`.
    pub from_narrow_match: usize,
    /// Associative mapping links.
    pub associative: usize,
    /// Exact equivalence mapping links.
    pub exact: usize,
    /// Close equivalence mapping links.
    pub close: usize,
    /// Of the close ones, how many were inferred from exact ones.
    pub close_from_exact: usize,
    /// Resources that carry at least one mapping link.
    pub mapped: usize,
}

/// A finding, with its severity, as the report writes them.
#[derive(Debug, Clone, PartialEq, Eq)]
pub struct Finding {
    /// How severe it is.
    pub severity: String,
    /// What was found.
    pub text: String,
}

/// Everything the inspection report says of a vocabulary, as plain values.
#[derive(Debug, Clone, PartialEq, Eq)]
pub struct Inspection {
    /// How many statements were read.
    pub statements: usize,
    /// Each SKOS class, in the order the report lists them.
    pub classes: Vec<ClassCount>,
    /// The label coverage of each language, one row each.
    pub coverage: Vec<String>,
    /// How many concepts there are.
    pub concepts: usize,
    /// How many concepts have no preferred label in any language.
    pub unlabelled: usize,
    /// The SKOS-XL labels.
    pub xl: XlTally,
    /// The documentation coverage of each note kind, one row each.
    pub documentation: Vec<String>,
    /// The note properties the vocabulary declared for itself.
    pub refinements: Vec<Refinement>,
    /// The concept schemes.
    pub schemes: Vec<Grouping>,
    /// The collections.
    pub collections: Vec<Grouping>,
    /// The semantic relations.
    pub relations: RelationTally,
    /// The mapping links.
    pub mappings: MappingTally,
    /// What the vocabulary has retired.
    pub retirements: RetirementTally,
    /// Each fact inferred rather than stated, written out.
    pub derivations: Vec<String>,
    /// Each finding.
    pub findings: Vec<Finding>,
    /// No SKOS integrity condition is violated.
    pub consistent: bool,
    /// Every check ran to the end.
    pub complete: bool,
}

/// Each row on a line of its own, indented.
pub open spec fn rows_text(rows: Seq<String>) -> Seq<char>
    decreases rows.len(),
{
    if rows.len() == 0 {
        Seq::empty()
    } else {
        rows_text(rows.drop_last()) + "  "@ + rows.last()@ + "\n"@
    }
}

pub(crate) fn push_rows(out: &mut String, rows: &Vec<String>)
    ensures
        final(out)@ == old(out)@ + rows_text(rows@),
{
    let ghost start = out@;
    let mut i: usize = 0;
    while i < rows.len()
        invariant
            i <= rows@.len(),
            out@ == start + rows_text(rows@.take(i as int)),
        decreases rows.len() - i,
    {
        push_str(out, "  ");
        push_str(out, rows[i].as_str());
        push_str(out, "\n");
        proof {
            assert(rows@.take(i + 1 as int).drop_last() =~= rows@.take(i as int));
        }
        i = i + 1;
    }
    assert(rows@.take(rows@.len() as int) =~= rows@);
}

/// `text`, then spaces up to `width` characters when it is shorter.
pub open spec fn padded(text: Seq<char>, width: nat) -> Seq<char> {
    if text.len() < width {
        text + Seq::new((width - text.len()) as nat, |i: int| ' ')
    } else {
        text
    }
}

fn push_padded(out: &mut String, text: &str, width: usize)
    ensures
        final(out)@ == old(out)@ + padded(text@, width as nat),
{
    push_str(out, text);
    let n = text.unicode_len();
    let mut k: usize = n;
    let ghost start = out@;
    while k < width
        invariant
            n == text@.len(),
            n <= k <= width || (k == n && n >= width),
            out@ == start + Seq::new((k - n) as nat, |i: int| ' '),
        decreases width - k,
    {
        push_char(out, ' ');
        assert(Seq::new((k + 1 - n) as nat, |i: int| ' ') =~= Seq::new((k - n) as nat, |i: int| ' ').push(' '));
        k = k + 1;
    }
    if n < width {
        assert(out@ =~= old(out)@ + padded(text@, width as nat));
    } else {
        assert(out@ =~= old(out)@ + padded(text@, width as nat));
    }
}

/// One class's line: its name in a column, its count, and how many were inferred when any were.
pub open spec fn class_line(class: ClassCount) -> Seq<char> {
    "  "@ + padded(class.name@, 24) + decimal(class.total as nat) + (if class.inferred > 0 {
        "  ("@ + decimal(class.inferred as nat) + " inferred)"@
    } else {
        Seq::empty()
    }) + "\n"@
}

/// Each class's line, in order.
pub open spec fn classes_text(classes: Seq<ClassCount>) -> Seq<char>
    decreases classes.len(),
{
    if classes.len() == 0 {
        Seq::empty()
    } else {
        classes_text(classes.drop_last()) + class_line(classes.last())
    }
}

fn push_classes(out: &mut String, classes: &Vec<ClassCount>)
    ensures
        final(out)@ == old(out)@ + classes_text(classes@),
{
    let ghost start = out@;
    let mut i: usize = 0;
    while i < classes.len()
        invariant
            i <= classes@.len(),
            out@ == start + classes_text(classes@.take(i as int)),
        decreases classes.len() - i,
    {
        let class = &classes[i];
        let ghost before = out@;
        push_str(out, "  ");
        push_padded(out, class.name.as_str(), 24);
        push_count(out, class.total);
        if class.inferred > 0 {
            push_str(out, "  (");
            push_count(out, class.inferred);
            push_str(out, " inferred)");
        }
        push_str(out, "\n");
        proof {
            assert(out@ =~= before + class_line(*class));
            assert(classes@.take(i + 1 as int).drop_last() =~= classes@.take(i as int));
        }
        i = i + 1;
    }
    assert(classes@.take(classes@.len() as int) =~= classes@);
}

/// The section on labels per language, printed for any vocabulary with labels or concepts.
pub open spec fn languages_text(coverage: Seq<String>, concepts: nat, unlabelled: nat) -> Seq<char> {
    if coverage.len() == 0 && concepts == 0 {
        Seq::empty()
    } else {
        "\nlanguages:\n"@ + (if coverage.len() == 0 {
            "  none \u{2014} nothing in this vocabulary carries a SKOS lexical label\n"@
        } else {
            Seq::empty()
        }) + rows_text(coverage) + "  "@ + decimal(unlabelled)
            + " concept(s) have no skos:prefLabel in any language\n"@
    }
}

fn push_languages(out: &mut String, coverage: &Vec<String>, concepts: usize, unlabelled: usize)
    ensures
        final(out)@ == old(out)@ + languages_text(coverage@, concepts as nat, unlabelled as nat),
{
    if coverage.len() == 0 && concepts == 0 {
        assert(out@ =~= old(out)@ + languages_text(coverage@, concepts as nat, unlabelled as nat));
        return;
    }
    push_str(out, "\nlanguages:\n");
    if coverage.len() == 0 {
        push_str(out, "  none \u{2014} nothing in this vocabulary carries a SKOS lexical label\n");
    }
    push_rows(out, coverage);
    push_str(out, "  ");
    push_count(out, unlabelled);
    push_str(out, " concept(s) have no skos:prefLabel in any language\n");
    assert(out@ =~= old(out)@ + languages_text(coverage@, concepts as nat, unlabelled as nat));
}

/// The section on SKOS-XL labels, printed only for a vocabulary that uses them.
pub open spec fn xl_text(xl: XlTally) -> Seq<char> {
    if xl.labels == 0 && xl.labelled == 0 {
        Seq::empty()
    } else {
        "\nskos-xl labels:\n  "@ + decimal(xl.labels as nat) + " skosxl:Label resource(s), "@
            + decimal(xl.with_form as nat) + " with exactly one literal form\n  "@
            + decimal(xl.labelled as nat) + " resource(s) labelled through SKOS-XL, "@
            + decimal(xl.dumbed_down as nat) + " plain SKOS label(s) inferred from them\n"@
            + if xl.links > 0 {
            "  "@ + decimal(xl.links as nat) + " link(s) between labels, "@ + decimal(
                xl.converses as nat,
            ) + " converse(s) inferred under S62\n"@
        } else {
            Seq::empty()
        }
    }
}

#[verifier::spinoff_prover]
#[verifier::rlimit(40)]
fn push_xl(out: &mut String, xl: &XlTally)
    ensures
        final(out)@ == old(out)@ + xl_text(*xl),
{
    if xl.labels == 0 && xl.labelled == 0 {
        assert(out@ =~= old(out)@ + xl_text(*xl));
        return;
    }
    push_str(out, "\nskos-xl labels:\n  ");
    push_count(out, xl.labels);
    push_str(out, " skosxl:Label resource(s), ");
    push_count(out, xl.with_form);
    push_str(out, " with exactly one literal form\n  ");
    push_count(out, xl.labelled);
    push_str(out, " resource(s) labelled through SKOS-XL, ");
    push_count(out, xl.dumbed_down);
    push_str(out, " plain SKOS label(s) inferred from them\n");
    if xl.links > 0 {
        push_str(out, "  ");
        push_count(out, xl.links);
        push_str(out, " link(s) between labels, ");
        push_count(out, xl.converses);
        push_str(out, " converse(s) inferred under S62\n");
    }
    assert(out@ =~= old(out)@ + xl_text(*xl));
}

/// The texts, separated by `", "`.
pub open spec fn comma_joined(texts: Seq<String>) -> Seq<char>
    decreases texts.len(),
{
    if texts.len() == 0 {
        Seq::empty()
    } else if texts.len() == 1 {
        texts[0]@
    } else {
        comma_joined(texts.drop_last()) + ", "@ + texts.last()@
    }
}

fn push_comma_joined(out: &mut String, texts: &Vec<String>)
    ensures
        final(out)@ == old(out)@ + comma_joined(texts@),
{
    let ghost start = out@;
    let mut i: usize = 0;
    while i < texts.len()
        invariant
            i <= texts@.len(),
            out@ == start + comma_joined(texts@.take(i as int)),
        decreases texts.len() - i,
    {
        if i > 0 {
            push_str(out, ", ");
        }
        push_str(out, texts[i].as_str());
        proof {
            let next = texts@.take(i + 1 as int);
            assert(next.drop_last() =~= texts@.take(i as int));
            if i == 0 {
                assert(next.len() == 1);
            }
        }
        i = i + 1;
    }
    assert(texts@.take(texts@.len() as int) =~= texts@);
}

/// One declared note property and what it refines.
pub open spec fn refinement_line(refinement: Refinement) -> Seq<char> {
    "    <"@ + refinement.property@ + "> \u{2192} "@ + comma_joined(refinement.kinds@) + "\n"@
}

/// Each declared note property's line, in order.
pub open spec fn refinement_lines(refinements: Seq<Refinement>) -> Seq<char>
    decreases refinements.len(),
{
    if refinements.len() == 0 {
        Seq::empty()
    } else {
        refinement_lines(refinements.drop_last()) + refinement_line(refinements.last())
    }
}

/// The note properties the vocabulary declared for itself, or nothing when it declared none.
pub open spec fn refinements_text(refinements: Seq<Refinement>) -> Seq<char> {
    if refinements.len() == 0 {
        Seq::empty()
    } else {
        "  this vocabulary declares note properties of its own:\n"@ + refinement_lines(refinements)
    }
}

fn push_refinements(out: &mut String, refinements: &Vec<Refinement>)
    ensures
        final(out)@ == old(out)@ + refinements_text(refinements@),
{
    if refinements.len() == 0 {
        assert(out@ =~= old(out)@ + refinements_text(refinements@));
        return;
    }
    push_str(out, "  this vocabulary declares note properties of its own:\n");
    let ghost start = out@;
    let mut i: usize = 0;
    while i < refinements.len()
        invariant
            i <= refinements@.len(),
            out@ == start + refinement_lines(refinements@.take(i as int)),
        decreases refinements.len() - i,
    {
        let refinement = &refinements[i];
        let ghost before = out@;
        push_str(out, "    <");
        push_str(out, refinement.property.as_str());
        push_str(out, "> \u{2192} ");
        push_comma_joined(out, &refinement.kinds);
        push_str(out, "\n");
        proof {
            assert(out@ =~= before + refinement_line(*refinement));
            assert(refinements@.take(i + 1 as int).drop_last() =~= refinements@.take(i as int));
        }
        i = i + 1;
    }
    assert(refinements@.take(refinements@.len() as int) =~= refinements@);
    assert(out@ =~= old(out)@ + refinements_text(refinements@));
}

/// The section on documentation, printed for any vocabulary with concepts.
pub open spec fn documentation_text(
    concepts: nat,
    rows: Seq<String>,
    refinements: Seq<Refinement>,
) -> Seq<char> {
    if concepts == 0 {
        Seq::empty()
    } else {
        "\ndocumentation:\n"@ + rows_text(rows)
            + "  \u{a7}7 states no integrity condition, so an undocumented concept is consistent SKOS; requiring a definition is a Z39.19 / ISO 25964 rule pack\n"@
            + refinements_text(refinements)
    }
}

fn push_documentation(out: &mut String, concepts: usize, rows: &Vec<String>, refinements: &Vec<Refinement>)
    ensures
        final(out)@ == old(out)@ + documentation_text(concepts as nat, rows@, refinements@),
{
    if concepts == 0 {
        assert(out@ =~= old(out)@ + documentation_text(concepts as nat, rows@, refinements@));
        return;
    }
    push_str(out, "\ndocumentation:\n");
    push_rows(out, rows);
    push_str(
        out,
        "  \u{a7}7 states no integrity condition, so an undocumented concept is consistent SKOS; requiring a definition is a Z39.19 / ISO 25964 rule pack\n",
    );
    push_refinements(out, refinements);
    assert(out@ =~= old(out)@ + documentation_text(concepts as nat, rows@, refinements@));
}

/// One scheme or collection on its line: what it is, then `what` counted, then, for an ordered
/// collection, how many of its lists are well formed.
pub open spec fn grouping_line(item: Grouping, what: Seq<char>) -> Seq<char> {
    "  "@ + named_text(item.named, "  "@) + "  "@ + decimal(item.count as nat) + what
        + match item.ordered_lists {
        Some(lists) => ", ordered by "@ + decimal(lists as nat) + " well-formed list(s)"@,
        None => Seq::empty(),
    } + "\n"@
}

/// Each scheme or collection on its line, in order.
pub open spec fn grouping_lines(items: Seq<Grouping>, what: Seq<char>) -> Seq<char>
    decreases items.len(),
{
    if items.len() == 0 {
        Seq::empty()
    } else {
        grouping_lines(items.drop_last(), what) + grouping_line(items.last(), what)
    }
}

/// A section listing schemes or collections under `heading`, or nothing when there are none.
pub open spec fn groupings_text(heading: Seq<char>, items: Seq<Grouping>, what: Seq<char>) -> Seq<
    char,
> {
    if items.len() == 0 {
        Seq::empty()
    } else {
        heading + grouping_lines(items, what)
    }
}

fn push_groupings(out: &mut String, heading: &str, items: &Vec<Grouping>, what: &str)
    ensures
        final(out)@ == old(out)@ + groupings_text(heading@, items@, what@),
{
    if items.len() == 0 {
        assert(out@ =~= old(out)@ + groupings_text(heading@, items@, what@));
        return;
    }
    push_str(out, heading);
    let ghost start = out@;
    let mut i: usize = 0;
    while i < items.len()
        invariant
            i <= items@.len(),
            out@ == start + grouping_lines(items@.take(i as int), what@),
        decreases items.len() - i,
    {
        let item = &items[i];
        let ghost before = out@;
        push_str(out, "  ");
        push_named(out, &item.named, "  ");
        push_str(out, "  ");
        push_count(out, item.count);
        push_str(out, what);
        match item.ordered_lists {
            Some(lists) => {
                push_str(out, ", ordered by ");
                push_count(out, lists);
                push_str(out, " well-formed list(s)");
            },
            None => {},
        }
        push_str(out, "\n");
        proof {
            assert(out@ =~= before + grouping_line(*item, what@));
            assert(items@.take(i + 1 as int).drop_last() =~= items@.take(i as int));
        }
        i = i + 1;
    }
    assert(items@.take(items@.len() as int) =~= items@);
    assert(out@ =~= old(out)@ + groupings_text(heading@, items@, what@));
}

/// A line that is there only when `shown`.
pub open spec fn when(shown: bool, line: Seq<char>) -> Seq<char> {
    if shown { line } else { Seq::empty() }
}

/// The opening lines on semantic relations: the hierarchical and the associative links.
pub open spec fn relations_head_text(r: RelationTally) -> Seq<char> {
    "\nsemantic relations:\n  "@ + decimal(r.hierarchical as nat) + " hierarchical link(s), "@
        + decimal(r.from_narrower as nat) + " of them stated as skos:narrower\n  "@
        + decimal(r.associative as nat) + " associative link(s), "@
        + decimal(r.associative_converses as nat) + " converse(s) inferred under S23\n"@
}

/// The line on links lifted from mapping links, when there are any.
pub open spec fn lifted_text(r: RelationTally) -> Seq<char> {
    when(
        r.from_mapping > 0 || r.associative_from_mapping > 0,
        "  "@ + decimal(r.from_mapping as nat) + " hierarchical and "@ + decimal(
            r.associative_from_mapping as nat,
        ) + " associative link(s) were lifted from mapping links under S41\n"@,
    )
}

/// The section on semantic relations, printed for a vocabulary that has any.
pub open spec fn relations_text(r: RelationTally) -> Seq<char> {
    if r.hierarchical == 0 && r.associative == 0 && r.stated_transitive == 0 {
        Seq::empty()
    } else {
        relations_head_text(r) + lifted_text(r) + of_them_text(
            r.polyhierarchical as nat,
            " concept(s) have more than one broader concept (polyhierarchy)\n"@,
        ) + of_them_text(
            r.stated_transitive as nat,
            " link(s) stated with skos:broaderTransitive or skos:narrowerTransitive rather than with skos:broader\n"@,
        )
            + "  counted as stated links; S24's transitive closure is not stored \u{2014} `openbiz ancestors <graph> <concept>` walks it\n"@
    }
}

#[verifier::spinoff_prover]
#[verifier::rlimit(40)]
fn push_relations_head(out: &mut String, r: &RelationTally)
    ensures
        final(out)@ == old(out)@ + relations_head_text(*r),
{
    push_str(out, "\nsemantic relations:\n  ");
    push_count(out, r.hierarchical);
    push_str(out, " hierarchical link(s), ");
    push_count(out, r.from_narrower);
    push_str(out, " of them stated as skos:narrower\n  ");
    push_count(out, r.associative);
    push_str(out, " associative link(s), ");
    push_count(out, r.associative_converses);
    push_str(out, " converse(s) inferred under S23\n");
    assert(out@ =~= old(out)@ + relations_head_text(*r));
}

fn push_lifted(out: &mut String, r: &RelationTally)
    ensures
        final(out)@ == old(out)@ + lifted_text(*r),
{
    if r.from_mapping > 0 || r.associative_from_mapping > 0 {
        push_str(out, "  ");
        push_count(out, r.from_mapping);
        push_str(out, " hierarchical and ");
        push_count(out, r.associative_from_mapping);
        push_str(out, " associative link(s) were lifted from mapping links under S41\n");
    }
    assert(out@ =~= old(out)@ + lifted_text(*r));
}

fn push_relations(out: &mut String, r: &RelationTally)
    ensures
        final(out)@ == old(out)@ + relations_text(*r),
{
    if r.hierarchical == 0 && r.associative == 0 && r.stated_transitive == 0 {
        assert(out@ =~= old(out)@ + relations_text(*r));
        return;
    }
    push_relations_head(out, r);
    push_lifted(out, r);
    push_of_them(
        out,
        r.polyhierarchical,
        " concept(s) have more than one broader concept (polyhierarchy)\n",
    );
    push_of_them(
        out,
        r.stated_transitive,
        " link(s) stated with skos:broaderTransitive or skos:narrowerTransitive rather than with skos:broader\n",
    );
    push_str(
        out,
        "  counted as stated links; S24's transitive closure is not stored \u{2014} `openbiz ancestors <graph> <concept>` walks it\n",
    );
    assert(out@ =~= old(out)@ + relations_text(*r));
}

/// The section on mapping links, printed for a vocabulary that has any.
pub open spec fn mappings_text(m: MappingTally) -> Seq<char> {
    if m.mapped == 0 {
        Seq::empty()
    } else {
        "\nmappings:\n  "@ + decimal(m.hierarchical as nat) + " hierarchical mapping link(s), "@
            + decimal(m.from_narrow_match as nat) + " of them stated as skos:narrowMatch\n  "@
            + decimal(m.associative as nat) + " associative mapping link(s)\n  "@ + decimal(
            m.exact as nat,
        ) + " exact and "@ + decimal(m.close as nat) + " close equivalence mapping link(s), "@
            + decimal(m.close_from_exact as nat) + " of the close ones inferred under S42\n  "@
            + decimal(m.mapped as nat)
            + " resource(s) in this graph carry at least one mapping link\n"@
            + "  counted as the links held, one step each; S45 makes skos:exactMatch transitive and its closure is walked rather than stored, so a chain of exact matches is counted here as the links it states and resolved per concept by openbiz mappings\n"@
            + "  \u{a7}10.6.1 makes mapping across schemes a convention rather than a rule, so a mapping inside one scheme is counted here and is never a finding\n"@
    }
}

#[verifier::spinoff_prover]
#[verifier::rlimit(40)]
fn push_mappings(out: &mut String, m: &MappingTally)
    ensures
        final(out)@ == old(out)@ + mappings_text(*m),
{
    if m.mapped == 0 {
        assert(out@ =~= old(out)@ + mappings_text(*m));
        return;
    }
    push_str(out, "\nmappings:\n  ");
    push_count(out, m.hierarchical);
    push_str(out, " hierarchical mapping link(s), ");
    push_count(out, m.from_narrow_match);
    push_str(out, " of them stated as skos:narrowMatch\n  ");
    push_count(out, m.associative);
    push_str(out, " associative mapping link(s)\n  ");
    push_count(out, m.exact);
    push_str(out, " exact and ");
    push_count(out, m.close);
    push_str(out, " close equivalence mapping link(s), ");
    push_count(out, m.close_from_exact);
    push_str(out, " of the close ones inferred under S42\n  ");
    push_count(out, m.mapped);
    push_str(out, " resource(s) in this graph carry at least one mapping link\n");
    push_str(
        out,
        "  counted as the links held, one step each; S45 makes skos:exactMatch transitive and its closure is walked rather than stored, so a chain of exact matches is counted here as the links it states and resolved per concept by openbiz mappings\n",
    );
    push_str(
        out,
        "  \u{a7}10.6.1 makes mapping across schemes a convention rather than a rule, so a mapping inside one scheme is counted here and is never a finding\n",
    );
    assert(out@ =~= old(out)@ + mappings_text(*m));
}

/// The section on what was inferred rather than stated, printed when anything was.
pub open spec fn why_text(derivations: Seq<String>) -> Seq<char> {
    if derivations.len() == 0 {
        Seq::empty()
    } else {
        "\nwhy: "@ + decimal(derivations.len()) + " fact(s) were inferred rather than stated\n"@
            + rows_text(derivations)
    }
}

fn push_why(out: &mut String, derivations: &Vec<String>)
    ensures
        final(out)@ == old(out)@ + why_text(derivations@),
{
    if derivations.len() == 0 {
        assert(out@ =~= old(out)@ + why_text(derivations@));
        return;
    }
    push_str(out, "\nwhy: ");
    push_count(out, derivations.len());
    push_str(out, " fact(s) were inferred rather than stated\n");
    push_rows(out, derivations);
    assert(out@ =~= old(out)@ + why_text(derivations@));
}

/// Each finding on its line, its severity in brackets first.
pub open spec fn finding_lines(findings: Seq<Finding>) -> Seq<char>
    decreases findings.len(),
{
    if findings.len() == 0 {
        Seq::empty()
    } else {
        finding_lines(findings.drop_last()) + "  ["@ + findings.last().severity@ + "] "@
            + findings.last().text@ + "\n"@
    }
}

/// The section on findings, printed always, with how many there are.
pub open spec fn findings_text(findings: Seq<Finding>) -> Seq<char> {
    "\nfindings: "@ + decimal(findings.len()) + "\n"@ + finding_lines(findings)
}

fn push_findings(out: &mut String, findings: &Vec<Finding>)
    ensures
        final(out)@ == old(out)@ + findings_text(findings@),
{
    push_str(out, "\nfindings: ");
    push_count(out, findings.len());
    push_str(out, "\n");
    let ghost start = out@;
    let mut i: usize = 0;
    while i < findings.len()
        invariant
            i <= findings@.len(),
            out@ == start + finding_lines(findings@.take(i as int)),
        decreases findings.len() - i,
    {
        push_str(out, "  [");
        push_str(out, findings[i].severity.as_str());
        push_str(out, "] ");
        push_str(out, findings[i].text.as_str());
        push_str(out, "\n");
        proof {
            assert(findings@.take(i + 1 as int).drop_last() =~= findings@.take(i as int));
        }
        i = i + 1;
    }
    assert(findings@.take(findings@.len() as int) =~= findings@);
    assert(out@ =~= old(out)@ + findings_text(findings@));
}

/// What the report concludes about the integrity conditions: one is violated, none is, or none is
/// in the part of the graph that could be examined.
pub open spec fn verdict_text(consistent: bool, complete: bool) -> Seq<char> {
    if !consistent {
        "\nthis graph violates a SKOS integrity condition and is not a SKOS vocabulary.\n"@
    } else if complete {
        "\nno SKOS integrity condition is violated by this graph.\n"@
    } else {
        "\nno SKOS integrity condition is violated by the part of this graph that was checked \u{2014} one or more checks above were abandoned and say so.\n"@
    }
}

/// The sentence that closes every inspection report.
pub open spec fn inspection_closing() -> Seq<char> {
    "for the verdict on each SKOS integrity condition separately, and which of them this build\ncould check over this vocabulary, run `openbiz integrity <graph>`.\n"@
}

/// The opening of the report: the graph, how much was read, and each SKOS class counted.
pub open spec fn opening_text(graph: Seq<char>, inspection: Inspection) -> Seq<char> {
    "<"@ + graph + ">\n  "@ + decimal(inspection.statements as nat) + " statement(s) read\n\n"@
        + classes_text(inspection.classes@)
}

/// Everything `openbiz inspect` reports of a vocabulary, in order.
pub open spec fn inspection_text(graph: Seq<char>, inspection: Inspection) -> Seq<char> {
    opening_text(graph, inspection) + languages_text(
        inspection.coverage@,
        inspection.concepts as nat,
        inspection.unlabelled as nat,
    ) + xl_text(inspection.xl) + documentation_text(
        inspection.concepts as nat,
        inspection.documentation@,
        inspection.refinements@,
    ) + groupings_text("\nconcept schemes:\n"@, inspection.schemes@, " top concept(s)"@)
        + groupings_text("\ncollections:\n"@, inspection.collections@, " member(s)"@)
        + relations_text(inspection.relations) + mappings_text(inspection.mappings)
        + retirements_text(inspection.retirements) + why_text(inspection.derivations@)
        + findings_text(inspection.findings@) + verdict_text(
        inspection.consistent,
        inspection.complete,
    ) + inspection_closing()
}

/// What `openbiz inspect` reports of the vocabulary in `graph`: how much was read; each SKOS
/// class with how many instances were inferred; labels per language and the concepts with no
/// preferred label; SKOS-XL labels, documentation, schemes, collections, semantic relations and
/// mappings where there are any; what was retired; every inferred fact; every finding; and the
/// verdict on the integrity conditions, with the command that takes it apart.
#[verifier::spinoff_prover]
#[verifier::rlimit(40)]
pub fn report(graph: &str, inspection: &Inspection) -> (text: String)
    requires
        tally_consistent(inspection.retirements),
    ensures
        text@ == inspection_text(graph@, *inspection),
{
    let mut out = string_of("<");
    push_str(&mut out, graph);
    push_str(&mut out, ">\n  ");
    push_count(&mut out, inspection.statements);
    push_str(&mut out, " statement(s) read\n\n");
    push_classes(&mut out, &inspection.classes);
    assert(out@ =~= opening_text(graph@, *inspection));
    push_languages(&mut out, &inspection.coverage, inspection.concepts, inspection.unlabelled);
    push_xl(&mut out, &inspection.xl);
    push_documentation(
        &mut out,
        inspection.concepts,
        &inspection.documentation,
        &inspection.refinements,
    );
    push_groupings(&mut out, "\nconcept schemes:\n", &inspection.schemes, " top concept(s)");
    push_groupings(&mut out, "\ncollections:\n", &inspection.collections, " member(s)");
    push_relations(&mut out, &inspection.relations);
    push_mappings(&mut out, &inspection.mappings);
    retirements_section(&mut out, &inspection.retirements);
    push_why(&mut out, &inspection.derivations);
    push_findings(&mut out, &inspection.findings);
    if !inspection.consistent {
        push_str(
            &mut out,
            "\nthis graph violates a SKOS integrity condition and is not a SKOS vocabulary.\n",
        );
    } else if inspection.complete {
        push_str(&mut out, "\nno SKOS integrity condition is violated by this graph.\n");
    } else {
        push_str(
            &mut out,
            "\nno SKOS integrity condition is violated by the part of this graph that was checked \u{2014} one or more checks above were abandoned and say so.\n",
        );
    }
    push_str(
        &mut out,
        "for the verdict on each SKOS integrity condition separately, and which of them this build\ncould check over this vocabulary, run `openbiz integrity <graph>`.\n",
    );
    assert(out@ =~= inspection_text(graph@, *inspection));
    out
}

/// What the vocabulary says of one resource it marks `owl:deprecated`.
#[derive(Debug, Clone, PartialEq, Eq)]
pub struct RetiredFacts {
    /// The resource.
    pub node: Node,
    /// It is a concept.
    pub is_concept: bool,
    /// How many resources it records as superseding it.
    pub replaced_by: usize,
    /// The concepts directly below it.
    pub children: Vec<Node>,
    /// It is the top concept of some scheme.
    pub heads_scheme: bool,
}

/// `node` is among the retired resources.
pub open spec fn among_retired(retired: Seq<RetiredFacts>, node: Node) -> bool {
    exists|i: int| 0 <= i < retired.len() && node_same(#[trigger] retired[i].node, node)
}

/// Some concept directly below `facts` is not retired.
pub open spec fn has_current_child(facts: RetiredFacts, retired: Seq<RetiredFacts>) -> bool {
    exists|k: int|
        0 <= k < facts.children@.len() && !among_retired(retired, #[trigger] facts.children@[k])
}

/// How many of `s` meet `test`.
pub open spec fn count_where(s: Seq<RetiredFacts>, test: spec_fn(RetiredFacts) -> bool) -> nat
    decreases s.len(),
{
    if s.len() == 0 {
        0
    } else {
        count_where(s.drop_last(), test) + if test(s.last()) {
            1nat
        } else {
            0nat
        }
    }
}

proof fn lemma_count_where_bounded(s: Seq<RetiredFacts>, test: spec_fn(RetiredFacts) -> bool)
    ensures
        count_where(s, test) <= s.len(),
    decreases s.len(),
{
    if s.len() > 0 {
        lemma_count_where_bounded(s.drop_last(), test);
    }
}

/// Counting by `test` is the length of the entries `keep` keeps, where the two agree on every entry.
proof fn lemma_count_where_is_filter(
    s: Seq<RetiredFacts>,
    test: spec_fn(RetiredFacts) -> bool,
    keep: spec_fn(RetiredFacts) -> bool,
)
    requires
        forall|i: int| 0 <= i < s.len() ==> test(#[trigger] s[i]) == keep(s[i]),
    ensures
        count_where(s, test) == s.filter(keep).len(),
    decreases s.len(),
{
    reveal(Seq::filter);
    if s.len() > 0 {
        assert forall|i: int| 0 <= i < s.drop_last().len() implies test(
            #[trigger] s.drop_last()[i],
        ) == keep(s.drop_last()[i]) by {
            assert(s.drop_last()[i] == s[i]);
        }
        lemma_count_where_is_filter(s.drop_last(), test, keep);
        assert(s.last() == s[s.len() - 1]);
    }
}

/// An entry that meets `test` is counted.
proof fn lemma_count_where_counts(s: Seq<RetiredFacts>, test: spec_fn(RetiredFacts) -> bool, i: int)
    requires
        0 <= i < s.len(),
        test(s[i]),
    ensures
        count_where(s, test) >= 1,
    decreases s.len(),
{
    if i < s.len() - 1 {
        assert(s.drop_last()[i] == s[i]);
        lemma_count_where_counts(s.drop_last(), test, i);
    }
}

/// Where no entry meets `test`, the count is nothing.
proof fn lemma_count_where_none(s: Seq<RetiredFacts>, test: spec_fn(RetiredFacts) -> bool)
    requires
        forall|i: int| 0 <= i < s.len() ==> !test(#[trigger] s[i]),
    ensures
        count_where(s, test) == 0,
    decreases s.len(),
{
    if s.len() > 0 {
        assert forall|i: int| 0 <= i < s.drop_last().len() implies !test(
            #[trigger] s.drop_last()[i],
        ) by {
            assert(s.drop_last()[i] == s[i]);
        }
        lemma_count_where_none(s.drop_last(), test);
        assert(s.last() == s[s.len() - 1]);
    }
}

/// The tally of what a vocabulary has retired, counted from what it says of each retired
/// resource.
pub open spec fn tally_of(
    concepts: nat,
    retired: Seq<RetiredFacts>,
    unmarked: Seq<Named>,
) -> (nat, nat, nat, nat, nat, nat, Seq<Named>) {
    (
        retired.len(),
        count_where(retired, |f: RetiredFacts| f.is_concept),
        concepts,
        count_where(retired, |f: RetiredFacts| f.replaced_by == 0),
        count_where(retired, |f: RetiredFacts| has_current_child(f, retired)),
        count_where(retired, |f: RetiredFacts| f.heads_scheme),
        unmarked,
    )
}

/// What the tally counts: every retired resource; those that are concepts; those that record
/// nothing as superseding them; those that still have, directly below them, some concept that is
/// not itself among the retired resources; and those still a scheme's top concept. The concepts in
/// all, and the resources that record a replacement without being marked, are passed through.
pub proof fn lemma_tally_counts(concepts: nat, retired: Seq<RetiredFacts>, unmarked: Seq<Named>)
    ensures
        tally_of(concepts, retired, unmarked).0 == retired.len(),
        tally_of(concepts, retired, unmarked).1 == retired.filter(|f: RetiredFacts| f.is_concept).len(),
        tally_of(concepts, retired, unmarked).2 == concepts,
        tally_of(concepts, retired, unmarked).3 == retired.filter(
            |f: RetiredFacts| f.replaced_by == 0,
        ).len(),
        tally_of(concepts, retired, unmarked).4 == retired.filter(
            |f: RetiredFacts|
                exists|k: int|
                    #![trigger f.children@[k]]
                    0 <= k < f.children@.len() && forall|j: int|
                        0 <= j < retired.len() ==> !node_same(
                            #[trigger] retired[j].node,
                            f.children@[k],
                        ),
        ).len(),
        tally_of(concepts, retired, unmarked).5 == retired.filter(|f: RetiredFacts| f.heads_scheme).len(),
        tally_of(concepts, retired, unmarked).6 == unmarked,
{
    lemma_count_where_is_filter(
        retired,
        |f: RetiredFacts| f.is_concept,
        |f: RetiredFacts| f.is_concept,
    );
    lemma_count_where_is_filter(
        retired,
        |f: RetiredFacts| f.replaced_by == 0,
        |f: RetiredFacts| f.replaced_by == 0,
    );
    lemma_count_where_is_filter(
        retired,
        |f: RetiredFacts| f.heads_scheme,
        |f: RetiredFacts| f.heads_scheme,
    );
    let current = |f: RetiredFacts|
        exists|k: int|
            #![trigger f.children@[k]]
            0 <= k < f.children@.len() && forall|j: int|
                0 <= j < retired.len() ==> !node_same(#[trigger] retired[j].node, f.children@[k]);
    assert forall|i: int| 0 <= i < retired.len() implies has_current_child(
        #[trigger] retired[i],
        retired,
    ) == current(retired[i]) by {
        let f = retired[i];
        if has_current_child(f, retired) {
            let k = choose|k: int|
                0 <= k < f.children@.len() && !among_retired(retired, #[trigger] f.children@[k]);
            assert(0 <= k < f.children@.len() && forall|j: int|
                0 <= j < retired.len() ==> !node_same(#[trigger] retired[j].node, f.children@[k]));
        }
        if current(f) {
            let k = choose|k: int|
                #![trigger f.children@[k]]
                0 <= k < f.children@.len() && forall|j: int|
                    0 <= j < retired.len() ==> !node_same(#[trigger] retired[j].node, f.children@[k]);
            assert(!among_retired(retired, f.children@[k]));
        }
    }
    lemma_count_where_is_filter(
        retired,
        |f: RetiredFacts| has_current_child(f, retired),
        current,
    );
}

/// A retired resource with a concept directly below it that is not itself among the retired
/// resources is counted among those with current children.
pub proof fn lemma_current_child_is_counted(
    concepts: nat,
    retired: Seq<RetiredFacts>,
    unmarked: Seq<Named>,
    i: int,
    k: int,
)
    requires
        0 <= i < retired.len(),
        0 <= k < retired[i].children@.len(),
        forall|j: int|
            0 <= j < retired.len() ==> !node_same(#[trigger] retired[j].node, retired[i].children@[k]),
    ensures
        tally_of(concepts, retired, unmarked).4 >= 1,
{
    assert(!among_retired(retired, retired[i].children@[k]));
    assert(has_current_child(retired[i], retired));
    lemma_count_where_counts(retired, |f: RetiredFacts| has_current_child(f, retired), i);
}

/// Where every concept directly below every retired resource is itself retired, none is counted
/// among those with current children.
pub proof fn lemma_no_current_child_counts_none(
    concepts: nat,
    retired: Seq<RetiredFacts>,
    unmarked: Seq<Named>,
)
    requires
        forall|i: int, k: int|
            0 <= i < retired.len() && 0 <= k < retired[i].children@.len() ==> exists|j: int|
                0 <= j < retired.len() && node_same(
                    #[trigger] retired[j].node,
                    #[trigger] retired[i].children@[k],
                ),
    ensures
        tally_of(concepts, retired, unmarked).4 == 0,
{
    assert forall|i: int| 0 <= i < retired.len() implies !has_current_child(
        #[trigger] retired[i],
        retired,
    ) by {
        assert forall|k: int| 0 <= k < retired[i].children@.len() implies among_retired(
            retired,
            #[trigger] retired[i].children@[k],
        ) by {
            let j = choose|j: int|
                0 <= j < retired.len() && node_same(
                    #[trigger] retired[j].node,
                    retired[i].children@[k],
                );
            assert(node_same(retired[j].node, retired[i].children@[k]));
        }
    }
    lemma_count_where_none(retired, |f: RetiredFacts| has_current_child(f, retired));
}

/// A tally as the same tuple.
pub open spec fn tally_view(tally: RetirementTally) -> (nat, nat, nat, nat, nat, nat, Seq<Named>) {
    (
        tally.retired as nat,
        tally.retired_concepts as nat,
        tally.concepts as nat,
        tally.dead_ends as nat,
        tally.with_current_children as nat,
        tally.heading_schemes as nat,
        tally.unmarked@,
    )
}

/// Whether `node` is among the retired resources.
fn retired_has(retired: &Vec<RetiredFacts>, node: &Node) -> (found: bool)
    ensures
        found == among_retired(retired@, *node),
{
    let mut i: usize = 0;
    while i < retired.len()
        invariant
            i <= retired@.len(),
            forall|j: int| 0 <= j < i ==> !node_same(#[trigger] retired@[j].node, *node),
        decreases retired.len() - i,
    {
        if retired[i].node.same_as(node) {
            return true;
        }
        i = i + 1;
    }
    false
}

/// Whether some concept directly below `facts` is not retired.
fn current_child(facts: &RetiredFacts, retired: &Vec<RetiredFacts>) -> (some: bool)
    ensures
        some == has_current_child(*facts, retired@),
{
    let mut k: usize = 0;
    while k < facts.children.len()
        invariant
            k <= facts.children@.len(),
            forall|j: int| 0 <= j < k ==> among_retired(retired@, #[trigger] facts.children@[j]),
        decreases facts.children.len() - k,
    {
        if !retired_has(retired, &facts.children[k]) {
            return true;
        }
        k = k + 1;
    }
    false
}

/// What a vocabulary has retired, counted from what it says of each resource it marks
/// `owl:deprecated`: how many, how many are concepts, how many record nothing as superseding
/// them, how many still have a concept directly below them that is not retired, and how many are
/// still a scheme's top concept; with `concepts`, the concepts it has in all, and `unmarked`, the
/// resources that record a replacement without being marked.
pub fn tally(concepts: usize, retired: &Vec<RetiredFacts>, unmarked: Vec<Named>) -> (counted:
    RetirementTally)
    ensures
        tally_view(counted) == tally_of(concepts as nat, retired@, unmarked@),
        tally_consistent(counted),
{
    let ghost all = retired@;
    let mut as_concepts: usize = 0;
    let mut dead_ends: usize = 0;
    let mut with_children: usize = 0;
    let mut heading: usize = 0;
    let mut i: usize = 0;
    while i < retired.len()
        invariant
            i <= retired@.len(),
            all == retired@,
            as_concepts == count_where(all.take(i as int), |f: RetiredFacts| f.is_concept),
            dead_ends == count_where(all.take(i as int), |f: RetiredFacts| f.replaced_by == 0),
            with_children == count_where(
                all.take(i as int),
                |f: RetiredFacts| has_current_child(f, all),
            ),
            heading == count_where(all.take(i as int), |f: RetiredFacts| f.heads_scheme),
        decreases retired.len() - i,
    {
        let facts = &retired[i];
        proof {
            let next = all.take(i + 1 as int);
            assert(next.drop_last() =~= all.take(i as int));
            assert(next.last() == all[i as int]);
            lemma_count_where_bounded(all.take(i as int), |f: RetiredFacts| f.is_concept);
            lemma_count_where_bounded(all.take(i as int), |f: RetiredFacts| f.replaced_by == 0);
            lemma_count_where_bounded(
                all.take(i as int),
                |f: RetiredFacts| has_current_child(f, all),
            );
            lemma_count_where_bounded(all.take(i as int), |f: RetiredFacts| f.heads_scheme);
        }
        if facts.is_concept {
            as_concepts = as_concepts + 1;
        }
        if facts.replaced_by == 0 {
            dead_ends = dead_ends + 1;
        }
        if current_child(facts, retired) {
            with_children = with_children + 1;
        }
        if facts.heads_scheme {
            heading = heading + 1;
        }
        i = i + 1;
    }
    proof {
        assert(all.take(i as int) =~= all);
        lemma_count_where_bounded(all, |f: RetiredFacts| f.replaced_by == 0);
    }
    RetirementTally {
        retired: retired.len(),
        retired_concepts: as_concepts,
        concepts,
        dead_ends,
        with_current_children: with_children,
        heading_schemes: heading,
        unmarked,
    }
}

/// How many of `origins` are inferred.
pub open spec fn inferred_in(origins: Seq<bool>) -> nat
    decreases origins.len(),
{
    if origins.len() == 0 {
        0
    } else {
        inferred_in(origins.drop_last()) + if origins.last() {
            1nat
        } else {
            0nat
        }
    }
}

/// One SKOS class counted from its instances: `inferred` holds, for each instance, whether it
/// is of the class by inference rather than by statement.
pub fn class_count(name: String, inferred: &Vec<bool>) -> (count: ClassCount)
    ensures
        count.name == name,
        count.total == inferred@.len(),
        count.inferred == inferred_in(inferred@),
{
    let mut found: usize = 0;
    let mut i: usize = 0;
    while i < inferred.len()
        invariant
            i <= inferred@.len(),
            found == inferred_in(inferred@.take(i as int)),
            found <= i,
        decreases inferred.len() - i,
    {
        proof {
            assert(inferred@.take(i + 1 as int).drop_last() =~= inferred@.take(i as int));
        }
        if inferred[i] {
            found = found + 1;
        }
        i = i + 1;
    }
    assert(inferred@.take(i as int) =~= inferred@);
    ClassCount { name, total: inferred.len(), inferred: found }
}

} // verus!
