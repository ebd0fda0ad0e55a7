//! Taking a retirement back: the phrases its report is written in.

use vstd::prelude::*;

use crate::deprecate::{mentions_lines, push_mentions, push_staged, staged_text, ChangeNote};
use crate::inspect::{push_rows, rows_text};
use crate::skos::{
    first_five_text, member_lines, named_text, node_same, node_written, push_first_five, push_members,
    push_named, Named, Node,
};
use crate::text::{decimal, push_count, push_str, string_of};

verus! {

/// "1 concept" / "3 concepts".
pub open spec fn concepts_text(count: nat) -> Seq<char> {
    if count == 1 {
        "1 concept"@
    } else {
        decimal(count) + " concepts"@
    }
}

/// How many concepts there are: "1 concept", "3 concepts".
pub fn concepts(count: usize) -> (text: String)
    ensures
        text@ == concepts_text(count as nat),
{
    if count == 1 {
        string_of("1 concept")
    } else {
        let mut out = String::new();
        push_count(&mut out, count);
        push_str(&mut out, " concepts");
        out
    }
}

/// The first five of `items`, one to a line.
pub open spec fn five_named(items: Seq<Named>) -> Seq<char> {
    member_lines(items.take(if items.len() > 5 { 5 } else { items.len() as int }))
}

/// `one` for one, `many` otherwise.
pub open spec fn agreeing(count: nat, one: Seq<char>, many: Seq<char>) -> Seq<char> {
    if count == 1 { one } else { many }
}

/// The paragraph on the retired concepts above the reinstated one.
pub open spec fn retired_above_text(broader: Seq<Named>) -> Seq<char> {
    let n = broader.len();
    if n == 0 {
        Seq::empty()
    } else {
        "  "@ + concepts_text(n) + " above it "@ + agreeing(n, "is"@, "are"@)
            + " retired, so this would be a current concept under one nobody should use again: reinstate "@
            + agreeing(n, "it"@, "them"@) + " too, or move this one with `openbiz move`\n"@
            + five_named(broader)
    }
}

/// The paragraph on the retired concepts below the reinstated one.
pub open spec fn retired_below_text(narrower: Seq<Named>) -> Seq<char> {
    let n = narrower.len();
    if n == 0 {
        Seq::empty()
    } else {
        "  "@ + concepts_text(n) + " below it still retired, by "@ + agreeing(n, "its"@, "their"@)
            + " own decision and untouched by this one\n"@ + first_five_text(narrower)
    }
}

/// The paragraph on the retired concepts that name the reinstated one as their replacement.
pub open spec fn superseding_text(pointing: Seq<Named>) -> Seq<char> {
    let n = pointing.len();
    if n == 0 {
        Seq::empty()
    } else {
        "  "@ + (if n == 1 { "1 concept is"@ } else { decimal(n) + " concepts are"@ })
            + " retired and superseded by this one, which was a trail leading to another retired concept and now leads somewhere current:\n"@
            + first_five_text(pointing)
    }
}

/// What a reinstatement's report says about what is still retired around the resource.
pub open spec fn surroundings_text(
    broader: Seq<Named>,
    narrower: Seq<Named>,
    pointing: Seq<Named>,
) -> Seq<char> {
    if broader.len() == 0 && narrower.len() == 0 && pointing.len() == 0 {
        Seq::empty()
    } else {
        "\nstill retired around it \u{2014} a reinstatement is about one resource, and every one of these is a separate decision:\n"@
            + retired_above_text(broader) + retired_below_text(narrower)
            + superseding_text(pointing)
    }
}

/// Appends `one` for one and `many` otherwise.
fn push_agreeing(out: &mut String, count: usize, one: &str, many: &str)
    ensures
        final(out)@ == old(out)@ + agreeing(count as nat, one@, many@),
{
    if count == 1 {
        push_str(out, one);
    } else {
        push_str(out, many);
    }
}

fn push_retired_above(out: &mut String, broader: &Vec<Named>)
    ensures
        final(out)@ == old(out)@ + retired_above_text(broader@),
{
    let n = broader.len();
    if n == 0 {
        assert(out@ =~= old(out)@ + retired_above_text(broader@));
        return;
    }
    push_str(out, "  ");
    let subject = concepts(n);
    push_str(out, subject.as_str());
    push_str(out, " above it ");
    push_agreeing(out, n, "is", "are");
    push_str(
        out,
        " retired, so this would be a current concept under one nobody should use again: reinstate ",
    );
    push_agreeing(out, n, "it", "them");
    push_str(out, " too, or move this one with `openbiz move`\n");
    let shown: usize = if n > 5 { 5 } else { n };
    push_members(out, broader, shown);
    assert(out@ =~= old(out)@ + retired_above_text(broader@));
}

fn push_retired_below(out: &mut String, narrower: &Vec<Named>)
    ensures
        final(out)@ == old(out)@ + retired_below_text(narrower@),
{
    let n = narrower.len();
    if n == 0 {
        assert(out@ =~= old(out)@ + retired_below_text(narrower@));
        return;
    }
    push_str(out, "  ");
    let subject = concepts(n);
    push_str(out, subject.as_str());
    push_str(out, " below it still retired, by ");
    push_agreeing(out, n, "its", "their");
    push_str(out, " own decision and untouched by this one\n");
    push_first_five(out, narrower);
    assert(out@ =~= old(out)@ + retired_below_text(narrower@));
}

fn push_superseding(out: &mut String, pointing: &Vec<Named>)
    ensures
        final(out)@ == old(out)@ + superseding_text(pointing@),
{
    let n = pointing.len();
    if n == 0 {
        assert(out@ =~= old(out)@ + superseding_text(pointing@));
        return;
    }
    push_str(out, "  ");
    if n == 1 {
        push_str(out, "1 concept is");
    } else {
        push_count(out, n);
        push_str(out, " concepts are");
    }
    push_str(
        out,
        " retired and superseded by this one, which was a trail leading to another retired concept and now leads somewhere current:\n",
    );
    push_first_five(out, pointing);
    assert(out@ =~= old(out)@ + superseding_text(pointing@));
}

/// What is still retired around a reinstated resource, which the reinstatement did not decide:
/// the retired concepts above it (five named), those below it (five named, then a count), and
/// the retired concepts that name it as their replacement (likewise). Nothing at all when there
/// are none.
pub fn surroundings(broader: &Vec<Named>, narrower: &Vec<Named>, pointing_here: &Vec<Named>) -> (text: String)
    ensures
        text@ == surroundings_text(broader@, narrower@, pointing_here@),
{
    let mut out = String::new();
    if broader.len() == 0 && narrower.len() == 0 && pointing_here.len() == 0 {
        assert(out@ =~= surroundings_text(broader@, narrower@, pointing_here@));
        return out;
    }
    push_str(
        &mut out,
        "\nstill retired around it \u{2014} a reinstatement is about one resource, and every one of these is a separate decision:\n",
    );
    push_retired_above(&mut out, broader);
    push_retired_below(&mut out, narrower);
    push_superseding(&mut out, pointing_here);
    assert(out@ =~= surroundings_text(broader@, narrower@, pointing_here@));
    out
}

/// Taking a retirement back, computed and not yet applied, as plain values.
#[derive(Debug, Clone, PartialEq, Eq)]
pub struct Reinstatement {
    /// The resource reinstated.
    pub resource: Named,
    /// It was marked `owl:deprecated`, rather than only recording what supersedes it.
    pub was_marked: bool,
    /// What it stops recording as superseding it.
    pub replacements: Vec<Named>,
    /// The change notes that stay, as written.
    pub kept_notes: Vec<String>,
    /// The change note recorded with the reinstatement, if any.
    pub note: Option<ChangeNote>,
    /// The other `owl:deprecated` statements about it, left in place, as written.
    pub unread: Vec<String>,
    /// The statements it would remove, as written.
    pub removals: Vec<String>,
    /// The statements it would add, as written.
    pub additions: Vec<String>,
}

/// The change notes that stay, and why they stay; nothing when there are none.
pub open spec fn kept_notes_text(notes: Seq<String>) -> Seq<char> {
    if notes.len() == 0 {
        Seq::empty()
    } else {
        "\n"@ + (if notes.len() == 1 {
            "1 skos:changeNote is"@
        } else {
            decimal(notes.len()) + " skos:changeNotes are"@
        })
            + " kept, including whichever explained the retirement. The retirement happened, and skos:changeNote is what documents a change \u{2014} a history tidied until it never appears is the opaque change log this product exists to replace:\n"@
            + rows_text(notes)
    }
}

/// The change notes a reinstatement keeps, and why: the retirement happened, and a change note is
/// the record of a change. Nothing when there are none.
pub fn kept_notes(notes: &Vec<String>) -> (text: String)
    ensures
        text@ == kept_notes_text(notes@),
{
    let mut out = String::new();
    if notes.len() == 0 {
        return out;
    }
    push_str(&mut out, "\n");
    if notes.len() == 1 {
        push_str(&mut out, "1 skos:changeNote is");
    } else {
        push_count(&mut out, notes.len());
        push_str(&mut out, " skos:changeNotes are");
    }
    push_str(
        &mut out,
        " kept, including whichever explained the retirement. The retirement happened, and skos:changeNote is what documents a change \u{2014} a history tidied until it never appears is the opaque change log this product exists to replace:\n",
    );
    push_rows(&mut out, notes);
    assert(out@ =~= kept_notes_text(notes@));
    out
}

/// The opening: the resource, what comes out, and where.
pub open spec fn reinstated_head_text(graph: Seq<char>, back: Reinstatement) -> Seq<char> {
    named_text(back.resource, " "@) + "\n"@ + (if back.was_marked {
        "reinstated \u{2014} the owl:deprecated marker comes out, and nothing else about it changes\n"@
    } else {
        "was never marked owl:deprecated, and only recorded what supersedes it \u{2014} that statement comes out\n"@
    }) + "in "@ + graph + "\n"@
}

/// What the resource stops recording as superseding it, and why that comes out too.
pub open spec fn superseded_text(replacements: Seq<Named>) -> Seq<char> {
    if replacements.len() == 0 {
        Seq::empty()
    } else {
        "\nit stops recording that it is superseded by:\n"@ + wide_lines(replacements)
            + "  dcterms:isReplacedBy says a resource supersedes this one, and a current concept that is superseded is a contradiction rather than a nuance \u{2014} so it comes out with the marker. If the two concepts are still related, say so with skos:related or skos:closeMatch; nothing here decides that.\n"@
    }
}

/// Each named resource on its line, indented by two.
pub open spec fn wide_lines(items: Seq<Named>) -> Seq<char>
    decreases items.len(),
{
    if items.len() == 0 {
        Seq::empty()
    } else {
        wide_lines(items.drop_last()) + "  "@ + named_text(items.last(), " "@) + "\n"@
    }
}

/// The further change note, with its language or why it has none.
pub open spec fn further_note_text(note: Option<ChangeNote>) -> Seq<char> {
    match note {
        None => Seq::empty(),
        Some(recorded) => "\nrecorded as a further skos:changeNote"@ + (match recorded.language {
            Some(tag) => " in "@ + tag@,
            None => ", untagged \u{2014} this resource has no one preferred-language label to take a tag from, and --language says which"@,
        }) + ": "@ + recorded.text@ + "\n"@,
    }
}

/// The other `owl:deprecated` statements left in place, and why.
pub open spec fn unread_text(unread: Seq<String>) -> Seq<char> {
    if unread.len() == 0 {
        Seq::empty()
    } else {
        "\n"@ + (if unread.len() == 1 {
            "1 further owl:deprecated statement"@
        } else {
            decimal(unread.len()) + " further owl:deprecated statements"@
        }) + " about it "@ + (if unread.len() == 1 { "is"@ } else { "are"@ })
            + " left in place: nothing in this build reads "@ + (if unread.len() == 1 {
            "it"@
        } else {
            "them"@
        })
            + " as a retirement, and removing a status statement on a meaning nobody here has established would be a guess:\n"@
            + rows_text(unread)
    }
}

/// Where else the resource is mentioned, which the reinstatement does not change.
pub open spec fn also_mentioned_text(resource: Node, elsewhere: Seq<(String, usize)>) -> Seq<char> {
    if elsewhere.len() == 0 {
        Seq::empty()
    } else {
        "\n"@ + node_written(resource)
            + " is also mentioned outside this vocabulary. Nothing there changes: a retirement is per-vocabulary, and another graph that marks it retired goes on doing so:\n"@
            + mentions_lines(elsewhere, " in "@)
    }
}

/// The statements removed, and those added or that none are.
pub open spec fn diff_text(removals: Seq<String>, additions: Seq<String>) -> Seq<char> {
    "\nit would remove:\n"@ + rows_text(removals) + if additions.len() == 0 {
        "and add nothing.\n"@
    } else {
        "and add:\n"@ + rows_text(additions)
    }
}

/// What `openbiz reinstate` reports.
pub open spec fn reinstatement_text(
    graph: Seq<char>,
    back: Reinstatement,
    around: (Seq<Named>, Seq<Named>, Seq<Named>),
    elsewhere: Seq<(String, usize)>,
    id: Seq<char>,
    target: Seq<char>,
) -> Seq<char> {
    reinstated_head_text(graph, back) + superseded_text(back.replacements@) + kept_notes_text(
        back.kept_notes@,
    ) + further_note_text(back.note) + unread_text(back.unread@) + surroundings_text(
        around.0,
        around.1,
        around.2,
    ) + also_mentioned_text(back.resource.node, elsewhere) + diff_text(
        back.removals@,
        back.additions@,
    ) + staged_text(id, target)
}

fn push_reinstated_head(out: &mut String, graph: &str, back: &Reinstatement)
    ensures
        final(out)@ == old(out)@ + reinstated_head_text(graph@, *back),
{
    push_named(out, &back.resource, " ");
    push_str(out, "\n");
    if back.was_marked {
        push_str(
            out,
            "reinstated \u{2014} the owl:deprecated marker comes out, and nothing else about it changes\n",
        );
    } else {
        push_str(
            out,
            "was never marked owl:deprecated, and only recorded what supersedes it \u{2014} that statement comes out\n",
        );
    }
    push_str(out, "in ");
    push_str(out, graph);
    push_str(out, "\n");
    assert(out@ =~= old(out)@ + reinstated_head_text(graph@, *back));
}

fn push_superseded(out: &mut String, replacements: &Vec<Named>)
    ensures
        final(out)@ == old(out)@ + superseded_text(replacements@),
{
    if replacements.len() == 0 {
        assert(out@ =~= old(out)@ + superseded_text(replacements@));
        return;
    }
    push_str(out, "\nit stops recording that it is superseded by:\n");
    let ghost start = out@;
    let mut i: usize = 0;
    while i < replacements.len()
        invariant
            i <= replacements@.len(),
            out@ == start + wide_lines(replacements@.take(i as int)),
        decreases replacements.len() - i,
    {
        push_str(out, "  ");
        push_named(out, &replacements[i], " ");
        push_str(out, "\n");
        proof {
            assert(replacements@.take(i + 1 as int).drop_last() =~= replacements@.take(i as int));
        }
        i = i + 1;
    }
    assert(replacements@.take(replacements@.len() as int) =~= replacements@);
    push_str(
        out,
        "  dcterms:isReplacedBy says a resource supersedes this one, and a current concept that is superseded is a contradiction rather than a nuance \u{2014} so it comes out with the marker. If the two concepts are still related, say so with skos:related or skos:closeMatch; nothing here decides that.\n",
    );
    assert(out@ =~= old(out)@ + superseded_text(replacements@));
}

fn push_further_note(out: &mut String, note: &Option<ChangeNote>)
    ensures
        final(out)@ == old(out)@ + further_note_text(*note),
{
    match note {
        None => {},
        Some(recorded) => {
            push_str(out, "\nrecorded as a further skos:changeNote");
            match &recorded.language {
                Some(tag) => {
                    push_str(out, " in ");
                    push_str(out, tag.as_str());
                },
                None => push_str(
                    out,
                    ", untagged \u{2014} this resource has no one preferred-language label to take a tag from, and --language says which",
                ),
            }
            push_str(out, ": ");
            push_str(out, recorded.text.as_str());
            push_str(out, "\n");
        },
    }
    assert(out@ =~= old(out)@ + further_note_text(*note));
}

fn push_unread(out: &mut String, unread: &Vec<String>)
    ensures
        final(out)@ == old(out)@ + unread_text(unread@),
{
    let n = unread.len();
    if n == 0 {
        assert(out@ =~= old(out)@ + unread_text(unread@));
        return;
    }
    push_str(out, "\n");
    if n == 1 {
        push_str(out, "1 further owl:deprecated statement");
    } else {
        push_count(out, n);
        push_str(out, " further owl:deprecated statements");
    }
    push_str(out, " about it ");
    push_agreeing(out, n, "is", "are");
    push_str(out, " left in place: nothing in this build reads ");
    push_agreeing(out, n, "it", "them");
    push_str(
        out,
        " as a retirement, and removing a status statement on a meaning nobody here has established would be a guess:\n",
    );
    push_rows(out, unread);
    assert(out@ =~= old(out)@ + unread_text(unread@));
}

fn push_also_mentioned(out: &mut String, resource: &Node, elsewhere: &Vec<(String, usize)>)
    ensures
        final(out)@ == old(out)@ + also_mentioned_text(*resource, elsewhere@),
{
    if elsewhere.len() != 0 {
        push_str(out, "\n");
        let written = resource.to_string();
        push_str(out, written.as_str());
        push_str(
            out,
            " is also mentioned outside this vocabulary. Nothing there changes: a retirement is per-vocabulary, and another graph that marks it retired goes on doing so:\n",
        );
        push_mentions(out, elsewhere, " in ");
    }
    assert(out@ =~= old(out)@ + also_mentioned_text(*resource, elsewhere@));
}

fn push_diff(out: &mut String, removals: &Vec<String>, additions: &Vec<String>)
    ensures
        final(out)@ == old(out)@ + diff_text(removals@, additions@),
{
    push_str(out, "\nit would remove:\n");
    push_rows(out, removals);
    if additions.len() == 0 {
        push_str(out, "and add nothing.\n");
    } else {
        push_str(out, "and add:\n");
        push_rows(out, additions);
    }
    assert(out@ =~= old(out)@ + diff_text(removals@, additions@));
}

/// What `openbiz reinstate` reports once the reinstatement is staged as candidate `id` against
/// `target`: the resource and what comes out; what it stops recording as superseding it; the
/// change notes kept and the one added; the other retirement statements left in place; what is
/// still retired around it (`broader`, `narrower`, and the retired concepts that name it as their
/// replacement); where else it is mentioned; the statements removed and added; and how to decide
/// the candidate.
pub fn report(
    graph: &str,
    back: &Reinstatement,
    broader: &Vec<Named>,
    narrower: &Vec<Named>,
    pointing_here: &Vec<Named>,
    elsewhere: &Vec<(String, usize)>,
    id: &str,
    target: &str,
) -> (text: String)
    ensures
        text@ == reinstatement_text(
            graph@,
            *back,
            (broader@, narrower@, pointing_here@),
            elsewhere@,
            id@,
            target@,
        ),
{
    let mut out = String::new();
    push_reinstated_head(&mut out, graph, back);
    push_superseded(&mut out, &back.replacements);
    let kept = kept_notes(&back.kept_notes);
    push_str(&mut out, kept.as_str());
    push_further_note(&mut out, &back.note);
    push_unread(&mut out, &back.unread);
    let around = surroundings(broader, narrower, pointing_here);
    push_str(&mut out, around.as_str());
    push_also_mentioned(&mut out, &back.resource.node, elsewhere);
    push_diff(&mut out, &back.removals, &back.additions);
    push_staged(&mut out, id, target);
    assert(out@ =~= reinstatement_text(
        graph@,
        *back,
        (broader@, narrower@, pointing_here@),
        elsewhere@,
        id@,
        target@,
    ));
    out
}

/// A retired resource of the vocabulary: its name, and what it records as replacing it.
#[derive(Debug, Clone, PartialEq, Eq)]
pub struct RetiredNode {
    /// The resource, with its display label.
    pub named: Named,
    /// What it records as superseding it.
    pub replaced_by: Vec<Node>,
}

/// `node` is among the retired resources.
pub open spec fn is_retired(retired: Seq<RetiredNode>, node: Node) -> bool {
    exists|i: int| 0 <= i < retired.len() && node_same(#[trigger] retired[i].named.node, node)
}

/// The retired ones among `candidates`, in order.
pub open spec fn retired_among(candidates: Seq<Named>, retired: Seq<RetiredNode>) -> Seq<Named>
    decreases candidates.len(),
{
    if candidates.len() == 0 {
        Seq::empty()
    } else {
        let rest = retired_among(candidates.drop_last(), retired);
        if is_retired(retired, candidates.last().node) {
            rest.push(candidates.last())
        } else {
            rest
        }
    }
}

/// The retired resource names `resource` as what supersedes it.
pub open spec fn names_replacement(entry: RetiredNode, resource: Node) -> bool {
    exists|k: int| 0 <= k < entry.replaced_by@.len() && node_same(#[trigger] entry.replaced_by@[k], resource)
}

/// The retired resources, other than `resource` itself, that name it as what supersedes them, in
/// order.
pub open spec fn superseded_by(retired: Seq<RetiredNode>, resource: Node) -> Seq<Named>
    decreases retired.len(),
{
    if retired.len() == 0 {
        Seq::empty()
    } else {
        let rest = superseded_by(retired.drop_last(), resource);
        let last = retired.last();
        if !node_same(last.named.node, resource) && names_replacement(last, resource) {
            rest.push(last.named)
        } else {
            rest
        }
    }
}

/// Whether `node` is among the retired resources.
fn retired_contains(retired: &Vec<RetiredNode>, node: &Node) -> (found: bool)
    ensures
        found == is_retired(retired@, *node),
{
    let mut i: usize = 0;
    while i < retired.len()
        invariant
            i <= retired@.len(),
            forall|j: int| 0 <= j < i ==> !node_same(#[trigger] retired@[j].named.node, *node),
        decreases retired.len() - i,
    {
        if retired[i].named.node.same_as(node) {
            return true;
        }
        i = i + 1;
    }
    false
}

/// Whether `entry` names `resource` as what supersedes it.
fn replaced_by_resource(entry: &RetiredNode, resource: &Node) -> (names: bool)
    ensures
        names == names_replacement(*entry, *resource),
{
    let mut k: usize = 0;
    while k < entry.replaced_by.len()
        invariant
            k <= entry.replaced_by@.len(),
            forall|j: int| 0 <= j < k ==> !node_same(#[trigger] entry.replaced_by@[j], *resource),
        decreases entry.replaced_by.len() - k,
    {
        if entry.replaced_by[k].same_as(resource) {
            return true;
        }
        k = k + 1;
    }
    false
}

/// The retired ones among `candidates`, in order.
fn keep_retired(candidates: Vec<Named>, retired: &Vec<RetiredNode>) -> (kept: Vec<Named>)
    ensures
        kept@ == retired_among(candidates@, retired@),
{
    let ghost all = candidates@;
    let mut rest = candidates;
    let total = rest.len();
    let mut kept: Vec<Named> = Vec::new();
    let mut done: usize = 0;
    while rest.len() > 0
        invariant
            done + rest@.len() == all.len(),
            total == all.len(),
            rest@ == all.skip(done as int),
            kept@ == retired_among(all.take(done as int), retired@),
        decreases rest@.len(),
    {
        let ghost before = rest@;
        let item = rest.remove(0);
        proof {
            assert(item == all[done as int]);
            assert(rest@ =~= all.skip(done + 1));
            assert(all.take(done + 1).drop_last() =~= all.take(done as int));
            assert(all.take(done + 1).last() == item);
        }
        if retired_contains(retired, &item.node) {
            kept.push(item);
        }
        done = done + 1;
    }
    assert(all.take(done as int) =~= all);
    kept
}

/// The retired resources, other than `resource`, that name it as what supersedes them.
fn keep_superseded(retired: Vec<RetiredNode>, resource: &Node) -> (kept: Vec<Named>)
    ensures
        kept@ == superseded_by(retired@, *resource),
{
    let ghost all = retired@;
    let mut rest = retired;
    let total = rest.len();
    let mut kept: Vec<Named> = Vec::new();
    let mut done: usize = 0;
    while rest.len() > 0
        invariant
            done + rest@.len() == all.len(),
            total == all.len(),
            rest@ == all.skip(done as int),
            kept@ == superseded_by(all.take(done as int), *resource),
        decreases rest@.len(),
    {
        let entry = rest.remove(0);
        proof {
            assert(entry == all[done as int]);
            assert(rest@ =~= all.skip(done + 1));
            assert(all.take(done + 1).drop_last() =~= all.take(done as int));
            assert(all.take(done + 1).last() == entry);
        }
        let names = replaced_by_resource(&entry, resource);
        let itself = entry.named.node.same_as(resource);
        if !itself && names {
            let RetiredNode { named, replaced_by: _ } = entry;
            kept.push(named);
        }
        done = done + 1;
    }
    assert(all.take(done as int) =~= all);
    kept
}

/// What is still retired around `resource`, chosen from what surrounds it: its broader and its
/// narrower concepts that are retired, and the retired resources, other than itself, that name it
/// as what supersedes them; written as [`surroundings`] writes them.
pub fn retired_around(
    resource: &Node,
    broader: Vec<Named>,
    narrower: Vec<Named>,
    retired: Vec<RetiredNode>,
) -> (text: String)
    ensures
        text@ == surroundings_text(
            retired_among(broader@, retired@),
            retired_among(narrower@, retired@),
            superseded_by(retired@, *resource),
        ),
{
    let above = keep_retired(broader, &retired);
    let below = keep_retired(narrower, &retired);
    let pointing = keep_superseded(retired, resource);
    surroundings(&above, &below, &pointing)
}

} // verus!
