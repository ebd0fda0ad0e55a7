//! Retiring a concept: the phrases its report is written in.

use vstd::prelude::*;

use crate::skos::{
    first_five_text, member_lines, named_text, node_written, push_first_five, push_members, push_named,
    Named, Node,
};
use crate::text::{decimal, push_count, push_str, string_of};

verus! {

/// "1 concept is" / "3 concepts are".
pub open spec fn concepts_text(count: nat) -> Seq<char> {
    if count == 1 {
        "1 concept is"@
    } else {
        decimal(count) + " concepts are"@
    }
}

/// How many concepts there are, as the subject of a sentence: "1 concept is", "3 concepts are".
pub fn concepts(count: usize) -> (text: String)
    ensures
        text@ == concepts_text(count as nat),
{
    if count == 1 {
        string_of("1 concept is")
    } else {
        let mut out = String::new();
        push_count(&mut out, count);
        push_str(&mut out, " concepts are");
        out
    }
}

/// What is still attached to a concept being retired, which the retirement does not decide.
#[derive(Debug, Clone, PartialEq, Eq)]
pub struct Stranded {
    /// The concepts still below it.
    pub narrower: Vec<Named>,
    /// The schemes whose browse tree it heads.
    pub top_concept_of: Vec<Named>,
    /// The collections that list it as a member.
    pub collections: Vec<Named>,
    /// How many concepts are above it.
    pub broader: usize,
    /// How many concepts are associatively linked to it.
    pub related: usize,
    /// How many resources in other vocabularies it is mapped to.
    pub mapped_to: usize,
    /// How many statements of this vocabulary point at it, in all.
    pub incoming: usize,
}

/// Nothing is attached to the concept and it is attached to nothing.
pub open spec fn nothing_stranded(left: Stranded) -> bool {
    &&& left.narrower@.len() == 0
    &&& left.top_concept_of@.len() == 0
    &&& left.collections@.len() == 0
    &&& left.broader == 0
    &&& left.related == 0
    &&& left.mapped_to == 0
    &&& left.incoming == 0
}

/// "it" for one, `many` otherwise.
pub open spec fn one_or(count: nat, many: Seq<char>) -> Seq<char> {
    if count == 1 { "it"@ } else { many }
}

/// The paragraph on the concepts still below the retired one: at most five named, then how many
/// more there are.
pub open spec fn narrower_text(narrower: Seq<Named>) -> Seq<char> {
    let n = narrower.len();
    if n == 0 {
        Seq::empty()
    } else {
        "  "@ + concepts_text(n)
            + " still below it, under a concept nobody should use again: re-parent "@
            + one_or(n, "each"@) + " with `openbiz move`, or retire "@ + one_or(n, "them"@)
            + " too\n"@ + first_five_text(narrower)
    }
}

/// The paragraph on the schemes whose browse tree the retired concept heads.
pub open spec fn heads_text(schemes: Seq<Named>) -> Seq<char> {
    let n = schemes.len();
    if n == 0 {
        Seq::empty()
    } else {
        "  it heads the browse tree of "@ + decimal(n) + " scheme"@
            + (if n == 1 { Seq::empty() } else { "s"@ })
            + ", where a retired concept is the first thing a reader sees:\n"@
            + member_lines(schemes)
    }
}

/// The paragraph on the collections that still list the retired concept.
pub open spec fn listed_text(collections: Seq<Named>) -> Seq<char> {
    let n = collections.len();
    if n == 0 {
        Seq::empty()
    } else {
        "  "@ + (if n == 1 { "1 collection"@ } else { decimal(n) + " collections"@ })
            + " still list"@ + (if n == 1 { "s"@ } else { Seq::empty() })
            + " it as a member:\n"@ + member_lines(collections)
    }
}

/// The line on the concepts above the retired one.
pub open spec fn above_text(broader: nat) -> Seq<char> {
    if broader == 0 {
        Seq::empty()
    } else {
        "  "@ + concepts_text(broader) + " above it, which keeps a retired narrower concept\n"@
    }
}

/// The line on the concepts associatively linked to the retired one.
pub open spec fn linked_text(related: nat) -> Seq<char> {
    if related == 0 {
        Seq::empty()
    } else {
        "  "@ + concepts_text(related) + " associatively linked to it\n"@
    }
}

/// "1 `one`" for one, "`count` `many`" otherwise.
pub open spec fn counted_noun(count: nat, one: Seq<char>, many: Seq<char>) -> Seq<char> {
    if count == 1 {
        "1 "@ + one
    } else {
        decimal(count) + " "@ + many
    }
}

/// The line on the resources of other vocabularies the retired concept is mapped to.
pub open spec fn mapped_text(mapped_to: nat) -> Seq<char> {
    if mapped_to == 0 {
        Seq::empty()
    } else {
        "  "@ + counted_noun(mapped_to, "resource"@, "resources"@)
            + " in other vocabularies it is mapped to, which now join a live concept to a retired one\n"@
    }
}

/// The line on every statement of this vocabulary that points at the retired concept.
pub open spec fn pointing_text(incoming: nat) -> Seq<char> {
    if incoming == 0 {
        Seq::empty()
    } else {
        "  "@ + counted_noun(incoming, "statement"@, "statements"@)
            + " in this vocabulary point at it in all, counting the statements SKOS has no reading of\n"@
    }
}

/// What a retirement's report says about what it leaves attached to `concept`.
pub open spec fn stranded_text(left: Stranded, concept: Node) -> Seq<char> {
    if nothing_stranded(left) {
        "\nNothing in this vocabulary points at "@ + node_written(concept)
            + " and it points at nothing, so retiring it strands no one.\n"@
    } else {
        "\nstill attached to it, and untouched \u{2014} a deprecation retires a concept, it does not decide what to do about everything joined to it:\n"@
            + narrower_text(left.narrower@) + heads_text(left.top_concept_of@)
            + listed_text(left.collections@) + above_text(left.broader as nat)
            + linked_text(left.related as nat) + mapped_text(left.mapped_to as nat)
            + pointing_text(left.incoming as nat)
    }
}

/// A retirement's report says that it strands no one exactly when nothing is attached to the
/// concept: no narrower concept, no scheme it heads, no collection listing it, no broader concept,
/// no associative link, no mapping and no statement pointing at it. Otherwise the report opens by
/// saying what is still attached to it; in particular a concept with a broader concept is
/// reported as still attached.
pub proof fn lemma_strands_no_one_only_when_detached(left: Stranded, concept: Node)
    ensures
        ({
            let detached = left.narrower@.len() == 0 && left.top_concept_of@.len() == 0
                && left.collections@.len() == 0 && left.broader == 0 && left.related == 0
                && left.mapped_to == 0 && left.incoming == 0;
            let text = stranded_text(left, concept);
            let heading = "\nstill attached to it, and untouched \u{2014} a deprecation retires a concept, it does not decide what to do about everything joined to it:\n"@;
            &&& (text == "\nNothing in this vocabulary points at "@ + node_written(concept)
                + " and it points at nothing, so retiring it strands no one.\n"@) <==> detached
            &&& !detached ==> text.subrange(0, heading.len() as int) == heading
            &&& left.broader > 0 ==> text.subrange(0, heading.len() as int) == heading
        }),
{
    let heading = "\nstill attached to it, and untouched \u{2014} a deprecation retires a concept, it does not decide what to do about everything joined to it:\n"@;
    let nothing = "\nNothing in this vocabulary points at "@ + node_written(concept)
        + " and it points at nothing, so retiring it strands no one.\n"@;
    let text = stranded_text(left, concept);
    if !nothing_stranded(left) {
        let rest = narrower_text(left.narrower@) + heads_text(left.top_concept_of@)
            + listed_text(left.collections@) + above_text(left.broader as nat)
            + linked_text(left.related as nat) + mapped_text(left.mapped_to as nat)
            + pointing_text(left.incoming as nat);
        assert(text =~= heading + rest);
        assert(text.subrange(0, heading.len() as int) =~= heading);
        reveal_strlit("\nstill attached to it, and untouched \u{2014} a deprecation retires a concept, it does not decide what to do about everything joined to it:\n");
        reveal_strlit("\nNothing in this vocabulary points at ");
        assert(text[1] == 's');
        assert(nothing[1] == 'N');
    }
}

/// Appends "it" for one and `many` otherwise.
fn push_one_or(out: &mut String, count: usize, many: &str)
    ensures
        final(out)@ == old(out)@ + one_or(count as nat, many@),
{
    if count == 1 {
        push_str(out, "it");
    } else {
        push_str(out, many);
    }
}

fn push_narrower(out: &mut String, narrower: &Vec<Named>)
    ensures
        final(out)@ == old(out)@ + narrower_text(narrower@),
{
    let n = narrower.len();
    if n == 0 {
        assert(out@ =~= old(out)@ + narrower_text(narrower@));
        return;
    }
    push_str(out, "  ");
    let subject = concepts(n);
    push_str(out, subject.as_str());
    push_str(out, " still below it, under a concept nobody should use again: re-parent ");
    push_one_or(out, n, "each");
    push_str(out, " with `openbiz move`, or retire ");
    push_one_or(out, n, "them");
    push_str(out, " too\n");
    push_first_five(out, narrower);
    assert(out@ =~= old(out)@ + narrower_text(narrower@));
}

fn push_heads(out: &mut String, schemes: &Vec<Named>)
    ensures
        final(out)@ == old(out)@ + heads_text(schemes@),
{
    let n = schemes.len();
    if n == 0 {
        assert(out@ =~= old(out)@ + heads_text(schemes@));
        return;
    }
    push_str(out, "  it heads the browse tree of ");
    push_count(out, n);
    push_str(out, " scheme");
    if n != 1 {
        push_str(out, "s");
    }
    push_str(out, ", where a retired concept is the first thing a reader sees:\n");
    push_members(out, schemes, n);
    assert(schemes@.take(n as int) =~= schemes@);
    assert(out@ =~= old(out)@ + heads_text(schemes@));
}

fn push_listed(out: &mut String, collections: &Vec<Named>)
    ensures
        final(out)@ == old(out)@ + listed_text(collections@),
{
    let n = collections.len();
    if n == 0 {
        assert(out@ =~= old(out)@ + listed_text(collections@));
        return;
    }
    push_str(out, "  ");
    if n == 1 {
        push_str(out, "1 collection");
    } else {
        push_count(out, n);
        push_str(out, " collections");
    }
    push_str(out, " still list");
    if n == 1 {
        push_str(out, "s");
    }
    push_str(out, " it as a member:\n");
    push_members(out, collections, n);
    assert(collections@.take(n as int) =~= collections@);
    assert(out@ =~= old(out)@ + listed_text(collections@));
}

/// Appends "1 `one`" for one and "`count` `many`" otherwise.
fn push_counted(out: &mut String, count: usize, one: &str, many: &str)
    ensures
        final(out)@ == old(out)@ + counted_noun(count as nat, one@, many@),
{
    if count == 1 {
        push_str(out, "1 ");
        push_str(out, one);
    } else {
        push_count(out, count);
        push_str(out, " ");
        push_str(out, many);
    }
    assert(out@ =~= old(out)@ + counted_noun(count as nat, one@, many@));
}

/// Appends a line that opens with a subject and closes with `rest`, when `count` is not zero.
fn push_subject_line(out: &mut String, count: usize, rest: &str)
    ensures
        final(out)@ == old(out)@ + (if count == 0 {
            Seq::empty()
        } else {
            "  "@ + concepts_text(count as nat) + rest@
        }),
{
    if count != 0 {
        push_str(out, "  ");
        let subject = concepts(count);
        push_str(out, subject.as_str());
        push_str(out, rest);
        assert(out@ =~= old(out)@ + ("  "@ + concepts_text(count as nat) + rest@));
    } else {
        assert(out@ =~= old(out)@ + Seq::<char>::empty());
    }
}

/// Appends a line that opens with a counted noun and closes with `rest`, when `count` is not
/// zero.
fn push_noun_line(out: &mut String, count: usize, one: &str, many: &str, rest: &str)
    ensures
        final(out)@ == old(out)@ + (if count == 0 {
            Seq::empty()
        } else {
            "  "@ + counted_noun(count as nat, one@, many@) + rest@
        }),
{
    if count != 0 {
        push_str(out, "  ");
        push_counted(out, count, one, many);
        push_str(out, rest);
        assert(out@ =~= old(out)@ + ("  "@ + counted_noun(count as nat, one@, many@) + rest@));
    } else {
        assert(out@ =~= old(out)@ + Seq::<char>::empty());
    }
}

/// What is still attached to `concept`, which its retirement does not decide: the concepts below
/// it (five named, then a count), the schemes it heads, the collections that list it, and how
/// many concepts, mappings and statements still join it to the rest.
pub fn stranded(left: &Stranded, concept: &Node) -> (text: String)
    ensures
        text@ == stranded_text(*left, *concept),
{
    let nothing = left.narrower.len() == 0 && left.top_concept_of.len() == 0
        && left.collections.len() == 0 && left.broader == 0 && left.related == 0
        && left.mapped_to == 0 && left.incoming == 0;
    let mut out = String::new();
    if nothing {
        push_str(&mut out, "\nNothing in this vocabulary points at ");
        let written = concept.to_string();
        push_str(&mut out, written.as_str());
        push_str(&mut out, " and it points at nothing, so retiring it strands no one.\n");
        assert(out@ =~= stranded_text(*left, *concept));
        return out;
    }
    push_str(
        &mut out,
        "\nstill attached to it, and untouched \u{2014} a deprecation retires a concept, it does not decide what to do about everything joined to it:\n",
    );
    push_narrower(&mut out, &left.narrower);
    push_heads(&mut out, &left.top_concept_of);
    push_listed(&mut out, &left.collections);
    let ghost listed = out@;
    push_subject_line(&mut out, left.broader, " above it, which keeps a retired narrower concept\n");
    let ghost above = out@;
    push_subject_line(&mut out, left.related, " associatively linked to it\n");
    let ghost linked = out@;
    push_noun_line(
        &mut out,
        left.mapped_to,
        "resource",
        "resources",
        " in other vocabularies it is mapped to, which now join a live concept to a retired one\n",
    );
    let ghost mapped = out@;
    push_noun_line(
        &mut out,
        left.incoming,
        "statement",
        "statements",
        " in this vocabulary point at it in all, counting the statements SKOS has no reading of\n",
    );
    assert(above == listed + above_text(left.broader as nat));
    assert(linked == above + linked_text(left.related as nat));
    assert(mapped == linked + mapped_text(left.mapped_to as nat));
    assert(out@ == mapped + pointing_text(left.incoming as nat));
    assert(out@ =~= stranded_text(*left, *concept));
    out
}

/// A note recorded with a retirement.
#[derive(Debug, Clone, PartialEq, Eq)]
pub struct ChangeNote {
    /// Its language tag, if it has one.
    pub language: Option<String>,
    /// Its text.
    pub text: String,
}

/// A retirement, computed and not yet applied, as plain values.
#[derive(Debug, Clone, PartialEq, Eq)]
pub struct Retirement {
    /// The concept retired.
    pub concept: Named,
    /// It is newly marked deprecated, rather than already being so.
    pub marks: bool,
    /// What replaces it, if anything is recorded as doing so.
    pub replacement: Option<Named>,
    /// The change note recorded with it, if any.
    pub note: Option<ChangeNote>,
    /// What it leaves attached to the concept.
    pub stranded: Stranded,
    /// The statements it would add, as written.
    pub additions: Vec<String>,
}

/// Where else a resource is mentioned: each graph, and how many statements there.
pub open spec fn mentions_lines(found: Seq<(String, usize)>, after: Seq<char>) -> Seq<char>
    decreases found.len(),
{
    if found.len() == 0 {
        Seq::empty()
    } else {
        mentions_lines(found.drop_last(), after) + "  "@ + decimal(found.last().1 as nat) + after
            + found.last().0@ + "\n"@
    }
}

pub(crate) fn push_mentions(out: &mut String, found: &Vec<(String, usize)>, after: &str)
    ensures
        final(out)@ == old(out)@ + mentions_lines(found@, after@),
{
    let ghost start = out@;
    let mut i: usize = 0;
    while i < found.len()
        invariant
            i <= found@.len(),
            out@ == start + mentions_lines(found@.take(i as int), after@),
        decreases found.len() - i,
    {
        push_str(out, "  ");
        push_count(out, found[i].1);
        push_str(out, after);
        push_str(out, found[i].0.as_str());
        push_str(out, "\n");
        proof {
            assert(found@.take(i + 1 as int).drop_last() =~= found@.take(i as int));
        }
        i = i + 1;
    }
    assert(found@.take(found@.len() as int) =~= found@);
}

/// The opening: the concept, whether it is newly retired, and where.
pub open spec fn retired_head_text(graph: Seq<char>, retirement: Retirement) -> Seq<char> {
    named_text(retirement.concept, " "@) + "\n"@ + (if retirement.marks {
        "deprecated \u{2014} kept in the vocabulary, marked no longer current\n"@
    } else {
        "already deprecated \u{2014} this only records what it is replaced by\n"@
    }) + "in "@ + graph + "\n"@
}

/// What replaces the concept, or that nothing is recorded as doing so.
pub open spec fn replaced_by_text(replacement: Option<Named>) -> Seq<char> {
    match replacement {
        Some(next) => "\nreplaced by "@ + named_text(next, " "@)
            + "\n  a signpost and not a rewrite: nothing in this vocabulary is repointed, and every reference to the retired concept still resolves to it. Repointing them all is `openbiz merge`, which makes the retired IRI stop existing.\n"@,
        None => "\nwith nothing recorded as replacing it. A term can go out of use with nothing taking its place; if something does, `openbiz deprecate <graph> <concept> --replaced-by <iri>` records it later.\n"@,
    }
}

/// For a replacement this vocabulary does not hold, where else it is known, or a warning that it
/// is known nowhere.
pub open spec fn replacement_known_text(
    replacement: Option<Named>,
    found: Option<Seq<(String, usize)>>,
) -> Seq<char> {
    let written = match replacement {
        Some(next) => node_written(next.node),
        None => Seq::empty(),
    };
    match found {
        None => Seq::empty(),
        Some(places) => if places.len() == 0 {
            "\nwarning: nothing anywhere in this store says anything about "@ + written
                + ". dcterms:isReplacedBy may point at a concept in another system, which is ordinary \u{2014} but so is a mistyped IRI, and they look identical from here. Check it before approving.\n"@
        } else {
            "\n"@ + written + " is not in this vocabulary. It is known here:\n"@ + mentions_lines(
                places,
                " statements in "@,
            )
        },
    }
}

/// The change note recorded, with its language or why it has none.
pub open spec fn note_text(note: Option<ChangeNote>) -> Seq<char> {
    match note {
        None => Seq::empty(),
        Some(recorded) => "\nrecorded as a skos:changeNote"@ + (match recorded.language {
            Some(tag) => " in "@ + tag@,
            None => ", untagged \u{2014} this concept has no one preferred-language label to take a tag from, and --language says which"@,
        }) + ": "@ + recorded.text@ + "\n"@,
    }
}

/// Where else the concept is mentioned, which its retirement leaves pointing at it.
pub open spec fn mentioned_text(concept: Node, elsewhere: Seq<(String, usize)>) -> Seq<char> {
    if elsewhere.len() == 0 {
        Seq::empty()
    } else {
        "\n"@ + node_written(concept)
            + " is also mentioned outside this vocabulary. Nothing there changes and nothing there breaks \u{2014} but whoever owns it is pointing at a concept that is no longer current, and only this graph says so:\n"@
            + mentions_lines(elsewhere, " in "@)
    }
}

/// Each statement the retirement adds, and that it removes nothing.
pub open spec fn additions_text(additions: Seq<String>) -> Seq<char> {
    "\nit would add:\n"@ + crate::inspect::rows_text(additions)
        + "and remove nothing \u{2014} that is what makes this a retirement and not a deletion.\n"@
}

/// The candidate the retirement was staged as, and how to decide it.
pub open spec fn staged_text(id: Seq<char>, target: Seq<char>) -> Seq<char> {
    "\nproposed candidate "@ + id + " against "@ + target
        + ". Nothing has been written to the vocabulary. Review it with `openbiz candidate "@ + id
        + "`, then `openbiz approve "@ + id + "` or `openbiz reject "@ + id + "`.\n"@
}

/// What `openbiz deprecate` reports.
pub open spec fn retirement_text(
    graph: Seq<char>,
    retirement: Retirement,
    elsewhere: Seq<(String, usize)>,
    replacement_elsewhere: Option<Seq<(String, usize)>>,
    id: Seq<char>,
    target: Seq<char>,
) -> Seq<char> {
    retired_head_text(graph, retirement) + replaced_by_text(retirement.replacement)
        + replacement_known_text(retirement.replacement, replacement_elsewhere) + note_text(
        retirement.note,
    ) + stranded_text(retirement.stranded, retirement.concept.node) + mentioned_text(
        retirement.concept.node,
        elsewhere,
    ) + additions_text(retirement.additions@) + staged_text(id, target)
}

fn push_retired_head(out: &mut String, graph: &str, retirement: &Retirement)
    ensures
        final(out)@ == old(out)@ + retired_head_text(graph@, *retirement),
{
    push_named(out, &retirement.concept, " ");
    push_str(out, "\n");
    if retirement.marks {
        push_str(out, "deprecated \u{2014} kept in the vocabulary, marked no longer current\n");
    } else {
        push_str(out, "already deprecated \u{2014} this only records what it is replaced by\n");
    }
    push_str(out, "in ");
    push_str(out, graph);
    push_str(out, "\n");
    assert(out@ =~= old(out)@ + retired_head_text(graph@, *retirement));
}

fn push_replaced_by(out: &mut String, replacement: &Option<Named>)
    ensures
        final(out)@ == old(out)@ + replaced_by_text(*replacement),
{
    match replacement {
        Some(next) => {
            push_str(out, "\nreplaced by ");
            push_named(out, next, " ");
            push_str(
                out,
                "\n  a signpost and not a rewrite: nothing in this vocabulary is repointed, and every reference to the retired concept still resolves to it. Repointing them all is `openbiz merge`, which makes the retired IRI stop existing.\n",
            );
        },
        None => push_str(
            out,
            "\nwith nothing recorded as replacing it. A term can go out of use with nothing taking its place; if something does, `openbiz deprecate <graph> <concept> --replaced-by <iri>` records it later.\n",
        ),
    }
    assert(out@ =~= old(out)@ + replaced_by_text(*replacement));
}

fn push_replacement_known(
    out: &mut String,
    replacement: &Option<Named>,
    found: &Option<Vec<(String, usize)>>,
)
    ensures
        final(out)@ == old(out)@ + replacement_known_text(
            *replacement,
            match found {
                Some(places) => Some(places@),
                None => None,
            },
        ),
{
    match found {
        None => {},
        Some(places) => {
            let written = match replacement {
                Some(next) => next.node.to_string(),
                None => String::new(),
            };
            if places.len() == 0 {
                push_str(out, "\nwarning: nothing anywhere in this store says anything about ");
                push_str(out, written.as_str());
                push_str(
                    out,
                    ". dcterms:isReplacedBy may point at a concept in another system, which is ordinary \u{2014} but so is a mistyped IRI, and they look identical from here. Check it before approving.\n",
                );
            } else {
                push_str(out, "\n");
                push_str(out, written.as_str());
                push_str(out, " is not in this vocabulary. It is known here:\n");
                push_mentions(out, places, " statements in ");
            }
        },
    }
    assert(out@ =~= old(out)@ + replacement_known_text(
        *replacement,
        match found {
            Some(places) => Some(places@),
            None => None,
        },
    ));
}

fn push_note(out: &mut String, note: &Option<ChangeNote>)
    ensures
        final(out)@ == old(out)@ + note_text(*note),
{
    match note {
        None => {},
        Some(recorded) => {
            push_str(out, "\nrecorded as a skos:changeNote");
            match &recorded.language {
                Some(tag) => {
                    push_str(out, " in ");
                    push_str(out, tag.as_str());
                },
                None => push_str(
                    out,
                    ", untagged \u{2014} this concept has no one preferred-language label to take a tag from, and --language says which",
                ),
            }
            push_str(out, ": ");
            push_str(out, recorded.text.as_str());
            push_str(out, "\n");
        },
    }
    assert(out@ =~= old(out)@ + note_text(*note));
}

fn push_mentioned(out: &mut String, concept: &Node, elsewhere: &Vec<(String, usize)>)
    ensures
        final(out)@ == old(out)@ + mentioned_text(*concept, elsewhere@),
{
    if elsewhere.len() != 0 {
        push_str(out, "\n");
        let written = concept.to_string();
        push_str(out, written.as_str());
        push_str(
            out,
            " is also mentioned outside this vocabulary. Nothing there changes and nothing there breaks \u{2014} but whoever owns it is pointing at a concept that is no longer current, and only this graph says so:\n",
        );
        push_mentions(out, elsewhere, " in ");
    }
    assert(out@ =~= old(out)@ + mentioned_text(*concept, elsewhere@));
}

pub(crate) fn push_staged(out: &mut String, id: &str, target: &str)
    ensures
        final(out)@ == old(out)@ + staged_text(id@, target@),
{
    push_str(out, "\nproposed candidate ");
    push_str(out, id);
    push_str(out, " against ");
    push_str(out, target);
    push_str(out, ". Nothing has been written to the vocabulary. Review it with `openbiz candidate ");
    push_str(out, id);
    push_str(out, "`, then `openbiz approve ");
    push_str(out, id);
    push_str(out, "` or `openbiz reject ");
    push_str(out, id);
    push_str(out, "`.\n");
    assert(out@ =~= old(out)@ + staged_text(id@, target@));
}

/// What `openbiz deprecate` reports once the retirement is staged as candidate `id` against
/// `target`: the concept and whether it is newly retired; what replaces it, or that nothing does;
/// for a replacement this vocabulary does not hold, where it is known or that it is known nowhere;
/// the change note; what the retirement strands; where else the concept is mentioned; the
/// statements it adds, and that it removes none; and how to decide the candidate.
pub fn report(
    graph: &str,
    retirement: &Retirement,
    elsewhere: &Vec<(String, usize)>,
    replacement_elsewhere: &Option<Vec<(String, usize)>>,
    id: &str,
    target: &str,
) -> (text: String)
    ensures
        text@ == retirement_text(
            graph@,
            *retirement,
            elsewhere@,
            match replacement_elsewhere {
                Some(places) => Some(places@),
                None => None,
            },
            id@,
            target@,
        ),
{
    let mut out = String::new();
    push_retired_head(&mut out, graph, retirement);
    push_replaced_by(&mut out, &retirement.replacement);
    push_replacement_known(&mut out, &retirement.replacement, replacement_elsewhere);
    push_note(&mut out, &retirement.note);
    let left = stranded(&retirement.stranded, &retirement.concept.node);
    push_str(&mut out, left.as_str());
    push_mentioned(&mut out, &retirement.concept.node, elsewhere);
    push_str(&mut out, "\nit would add:\n");
    crate::inspect::push_rows(&mut out, &retirement.additions);
    push_str(
        &mut out,
        "and remove nothing \u{2014} that is what makes this a retirement and not a deletion.\n",
    );
    push_staged(&mut out, id, target);
    assert(out@ =~= retirement_text(
        graph@,
        *retirement,
        elsewhere@,
        match replacement_elsewhere {
            Some(places) => Some(places@),
            None => None,
        },
        id@,
        target@,
    ));
    out
}

} // verus!
