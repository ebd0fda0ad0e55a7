//! The routes from a concept up to the top of its hierarchy: the section of their report on where
//! the routes stop.

use vstd::prelude::*;

use crate::skos::{named_text, node_same, push_named, Named};
use crate::text::{decimal, push_count, push_str, same_text};

verus! {

/// A concept a route stops at, having no broader concept, with the schemes it is a top concept
/// of.
#[derive(Debug, Clone, PartialEq, Eq)]
pub struct Summit {
    /// The concept.
    pub concept: Named,
    /// The schemes that have it as a top concept.
    pub schemes: Vec<Named>,
}

/// A scheme's top concept met part way up a route: the concept, and the scheme.
#[derive(Debug, Clone, PartialEq, Eq)]
pub struct Midway {
    /// The concept, which has something above it.
    pub concept: Named,
    /// The scheme it is a top concept of.
    pub scheme: Named,
}

/// The lines under one summit: each scheme it heads, or that it heads none.
pub open spec fn scheme_lines(schemes: Seq<Named>) -> Seq<char>
    decreases schemes.len(),
{
    if schemes.len() == 0 {
        Seq::empty()
    } else {
        scheme_lines(schemes.drop_last()) + "    and it is a top concept of "@
            + named_text(schemes.last(), "  "@) + "\n"@
    }
}

/// One summit and what it heads.
pub open spec fn summit_text(summit: Summit) -> Seq<char> {
    "  "@ + named_text(summit.concept, "  "@) + "\n"@ + if summit.schemes@.len() == 0 {
        "    and it is a top concept of no scheme here, which SKOS permits: nothing in it makes a concept with no broader concept a scheme's entry point.\n"@
    } else {
        scheme_lines(summit.schemes@)
    }
}

/// Each summit and what it heads, in order.
pub open spec fn summits_text(summits: Seq<Summit>) -> Seq<char>
    decreases summits.len(),
{
    if summits.len() == 0 {
        Seq::empty()
    } else {
        summits_text(summits.drop_last()) + summit_text(summits.last())
    }
}

/// `concept` is one of the summits.
pub open spec fn is_summit(summits: Seq<Summit>, concept: Named) -> bool {
    exists|i: int| 0 <= i < summits.len() && node_same(#[trigger] summits[i].concept.node, concept.node)
}

/// The line that names a top concept met part way up a route.
pub open spec fn midway_line(found: Midway) -> Seq<char> {
    "  "@ + named_text(found.concept, "  "@) + " is a top concept of "@
        + named_text(found.scheme, "  "@) + ", and this vocabulary puts concepts above it\n"@
}

/// The lines for the top concepts met part way up, in the order the routes meet them: none for a
/// concept that is also a summit, and each line once.
pub open spec fn midway_lines(summits: Seq<Summit>, found: Seq<Midway>) -> Seq<Seq<char>>
    decreases found.len(),
{
    if found.len() == 0 {
        Seq::empty()
    } else {
        let before = midway_lines(summits, found.drop_last());
        let line = midway_line(found.last());
        if is_summit(summits, found.last().concept) || before.contains(line) {
            before
        } else {
            before.push(line)
        }
    }
}

/// Every line the section names for a top concept met part way up is there once: however many
/// routes pass the same top concept of the same scheme, no two of its lines are the same.
pub proof fn lemma_midway_named_once(summits: Seq<Summit>, found: Seq<Midway>)
    ensures
        forall|i: int, j: int|
            0 <= i < j < midway_lines(summits, found).len() ==> midway_lines(summits, found)[i]
                != midway_lines(summits, found)[j],
    decreases found.len(),
{
    if found.len() > 0 {
        lemma_midway_named_once(summits, found.drop_last());
        let before = midway_lines(summits, found.drop_last());
        let line = midway_line(found.last());
        if !(is_summit(summits, found.last().concept) || before.contains(line)) {
            assert forall|i: int, j: int|
                0 <= i < j < before.push(line).len() implies before.push(line)[i]
                != before.push(line)[j] by {
                if j == before.len() {
                    assert(before[i] == before.push(line)[i]);
                    if before[i] == line {
                        assert(before.contains(line));
                    }
                }
            }
        }
    }
}

/// The lines one after another.
pub open spec fn joined(lines: Seq<Seq<char>>) -> Seq<char>
    decreases lines.len(),
{
    if lines.len() == 0 {
        Seq::empty()
    } else {
        joined(lines.drop_last()) + lines.last()
    }
}

/// The part of the section on top concepts met part way up a route.
pub open spec fn midway_text(lines: Seq<Seq<char>>) -> Seq<char> {
    if lines.len() == 0 {
        Seq::empty()
    } else {
        "\n"@ + decimal(lines.len())
            + " concept(s) on these routes are a scheme's top concept without being where a route stops:\n"@
            + joined(lines)
            + "  SKOS states nothing relating the two. Its statements about skos:hasTopConcept are S5 to S8 \u{2014} its domain, its range, its sub-property of skos:inScheme, and its inverse \u{2014} and none of them mentions skos:broader, so a top concept with a broader concept is legal SKOS and not a defect this report has found.\n"@
    }
}

/// The section on where the routes stop and where they pass a scheme's declared entry point;
/// nothing at all when no route stops anywhere.
pub open spec fn summits_section_text(summits: Seq<Summit>, found: Seq<Midway>) -> Seq<char> {
    if summits.len() == 0 {
        Seq::empty()
    } else {
        "\n"@ + decimal(summits.len())
            + " concept(s) the routes stop at, each having no broader concept:\n"@
            + summits_text(summits) + midway_text(midway_lines(summits, found))
    }
}

fn push_summit(out: &mut String, summit: &Summit)
    ensures
        final(out)@ == old(out)@ + summit_text(*summit),
{
    push_str(out, "  ");
    push_named(out, &summit.concept, "  ");
    push_str(out, "\n");
    let ghost head = out@;
    let n = summit.schemes.len();
    if n == 0 {
        push_str(
            out,
            "    and it is a top concept of no scheme here, which SKOS permits: nothing in it makes a concept with no broader concept a scheme's entry point.\n",
        );
    } else {
        let mut i: usize = 0;
        while i < n
            invariant
                n == summit.schemes@.len(),
                i <= n,
                out@ == head + scheme_lines(summit.schemes@.take(i as int)),
            decreases n - i,
        {
            push_str(out, "    and it is a top concept of ");
            push_named(out, &summit.schemes[i], "  ");
            push_str(out, "\n");
            proof {
                let next = summit.schemes@.take(i + 1 as int);
                assert(next.drop_last() =~= summit.schemes@.take(i as int));
            }
            i = i + 1;
        }
        assert(summit.schemes@.take(n as int) =~= summit.schemes@);
    }
    assert(out@ =~= old(out)@ + summit_text(*summit));
}

/// Whether `concept` is one of the summits.
fn among_summits(summits: &Vec<Summit>, concept: &Named) -> (found: bool)
    ensures
        found == is_summit(summits@, *concept),
{
    let mut i: usize = 0;
    while i < summits.len()
        invariant
            i <= summits@.len(),
            forall|j: int| 0 <= j < i ==> !node_same(#[trigger] summits@[j].concept.node, concept.node),
        decreases summits.len() - i,
    {
        if summits[i].concept.node.same_as(&concept.node) {
            return true;
        }
        i = i + 1;
    }
    false
}

/// The line that names a top concept met part way up a route.
fn midway_line_of(found: &Midway) -> (line: String)
    ensures
        line@ == midway_line(*found),
{
    let mut line = String::new();
    push_str(&mut line, "  ");
    push_named(&mut line, &found.concept, "  ");
    push_str(&mut line, " is a top concept of ");
    push_named(&mut line, &found.scheme, "  ");
    push_str(&mut line, ", and this vocabulary puts concepts above it\n");
    assert(line@ =~= midway_line(*found));
    line
}

/// Whether one of `lines` holds the same text as `line`.
fn already_kept(lines: &Vec<String>, line: &String) -> (kept: bool)
    ensures
        kept == lines@.map_values(|s: String| s@).contains(line@),
{
    let ghost texts = lines@.map_values(|s: String| s@);
    let mut i: usize = 0;
    while i < lines.len()
        invariant
            i <= lines@.len(),
            texts == lines@.map_values(|s: String| s@),
            forall|j: int| 0 <= j < i ==> #[trigger] texts[j] != line@,
        decreases lines.len() - i,
    {
        if same_text(lines[i].as_str(), line.as_str()) {
            assert(texts[i as int] == line@);
            return true;
        }
        i = i + 1;
    }
    false
}

/// Appends the section of a routes report on where the routes stop: each summit with the schemes
/// it heads (or that it heads none), then each top concept met part way up a route, every such
/// line once and none for a concept that is also a summit. Appends nothing when no route stops
/// anywhere.
#[verifier::spinoff_prover]
#[verifier::rlimit(40)]
pub fn summits_section(out: &mut String, summits: &Vec<Summit>, midway: &Vec<Midway>)
    ensures
        final(out)@ == old(out)@ + summits_section_text(summits@, midway@),
{
    let n = summits.len();
    if n == 0 {
        assert(out@ =~= old(out)@ + summits_section_text(summits@, midway@));
        return;
    }
    push_str(out, "\n");
    push_count(out, n);
    push_str(out, " concept(s) the routes stop at, each having no broader concept:\n");
    let ghost head = out@;
    let mut i: usize = 0;
    while i < n
        invariant
            n == summits@.len(),
            i <= n,
            out@ == head + summits_text(summits@.take(i as int)),
        decreases n - i,
    {
        push_summit(out, &summits[i]);
        proof {
            let next = summits@.take(i + 1 as int);
            assert(next.drop_last() =~= summits@.take(i as int));
        }
        i = i + 1;
    }
    assert(summits@.take(n as int) =~= summits@);

    let mut kept: Vec<String> = Vec::new();
    let m = midway.len();
    let mut k: usize = 0;
    while k < m
        invariant
            m == midway@.len(),
            k <= m,
            kept@.map_values(|s: String| s@) == midway_lines(summits@, midway@.take(k as int)),
        decreases m - k,
    {
        let ghost before = kept@.map_values(|s: String| s@);
        proof {
            let next = midway@.take(k + 1 as int);
            assert(next.drop_last() =~= midway@.take(k as int));
            assert(next.last() == midway@[k as int]);
        }
        if !among_summits(summits, &midway[k].concept) {
            let line = midway_line_of(&midway[k]);
            if !already_kept(&kept, &line) {
                kept.push(line);
                assert(kept@.map_values(|s: String| s@) =~= before.push(midway_line(midway@[k as int])));
            }
        }
        k = k + 1;
    }
    let ghost lines = kept@.map_values(|s: String| s@);
    assert(midway@.take(m as int) =~= midway@);
    if kept.len() == 0 {
        assert(out@ =~= old(out)@ + summits_section_text(summits@, midway@));
        return;
    }
    push_str(out, "\n");
    push_count(out, kept.len());
    push_str(
        out,
        " concept(s) on these routes are a scheme's top concept without being where a route stops:\n",
    );
    let ghost opened = out@;
    let mut j: usize = 0;
    while j < kept.len()
        invariant
            lines == kept@.map_values(|s: String| s@),
            j <= kept@.len(),
            out@ == opened + joined(lines.take(j as int)),
        decreases kept.len() - j,
    {
        push_str(out, kept[j].as_str());
        proof {
            let next = lines.take(j + 1 as int);
            assert(next.drop_last() =~= lines.take(j as int));
            assert(next.last() == kept@[j as int]@);
        }
        j = j + 1;
    }
    assert(lines.take(kept@.len() as int) =~= lines);
    push_str(
        out,
        "  SKOS states nothing relating the two. Its statements about skos:hasTopConcept are S5 to S8 \u{2014} its domain, its range, its sub-property of skos:inScheme, and its inverse \u{2014} and none of them mentions skos:broader, so a top concept with a broader concept is legal SKOS and not a defect this report has found.\n",
    );
    assert(out@ =~= old(out)@ + summits_section_text(summits@, midway@));
}

/// Why a cycle was found by inference: what was concluded, from what, under which rule.
#[derive(Debug, Clone, PartialEq, Eq)]
pub struct CycleDerivation {
    /// What was concluded.
    pub conclusion: String,
    /// What it was concluded from.
    pub premise: String,
    /// The rule that licensed it.
    pub rule: String,
}

/// A loop in the hierarchy: the concepts round it, the way up that runs into it, and how it was
/// inferred, when it was.
#[derive(Debug, Clone, PartialEq, Eq)]
pub struct Cycle {
    /// The concepts round the loop, in order.
    pub concepts: Vec<Named>,
    /// The concepts on the way up from the concept asked about to the loop.
    pub approach: Vec<Named>,
    /// How the loop was inferred, when it was.
    pub derivation: Option<CycleDerivation>,
}

/// The named resources joined by arrows.
pub open spec fn arrow_joined(items: Seq<Named>) -> Seq<char>
    decreases items.len(),
{
    if items.len() == 0 {
        Seq::empty()
    } else if items.len() == 1 {
        named_text(items[0], "  "@)
    } else {
        arrow_joined(items.drop_last()) + " \u{2192} "@ + named_text(items.last(), "  "@)
    }
}

/// The concepts round a loop, and the first again to close it.
pub open spec fn round_of(concepts: Seq<Named>) -> Seq<Named> {
    if concepts.len() == 0 {
        concepts
    } else {
        concepts.push(concepts[0])
    }
}

/// Where a loop is reached from.
pub open spec fn reached_text(approach: Seq<Named>) -> Seq<char> {
    if approach.len() == 0 {
        "    reached from the concept asked about, which is in the loop\n"@
    } else {
        "    reached from "@ + arrow_joined(approach) + "\n"@
    }
}

/// How a loop was inferred, when it was.
pub open spec fn why_text(derivation: Option<CycleDerivation>) -> Seq<char> {
    match derivation {
        Some(why) => "    "@ + why.conclusion@ + "\n    because "@ + why.premise@ + "\n    and "@
            + why.rule@ + "\n"@,
        None => Seq::empty(),
    }
}

/// One loop: the concepts round it, where it is reached from, and how it was inferred.
pub open spec fn cycle_text(cycle: Cycle) -> Seq<char> {
    "  "@ + arrow_joined(round_of(cycle.concepts@)) + "\n"@ + reached_text(cycle.approach@)
        + why_text(cycle.derivation)
}

/// Each loop, in order.
pub open spec fn cycles_text(cycles: Seq<Cycle>) -> Seq<char>
    decreases cycles.len(),
{
    if cycles.len() == 0 {
        Seq::empty()
    } else {
        cycles_text(cycles.drop_last()) + cycle_text(cycles.last())
    }
}

/// The section on the loops in the hierarchy; nothing when there are none.
pub open spec fn cycles_section_text(cycles: Seq<Cycle>) -> Seq<char> {
    if cycles.len() == 0 {
        Seq::empty()
    } else {
        "\n"@ + decimal(cycles.len())
            + " cycle(s) in the hierarchy at or above it, each one a way up that reaches no summit:\n"@
            + cycles_text(cycles)
            + "  \u{a7}8.6.8 of the SKOS Reference marks a cycle consistent with the SKOS data model, so this is what the hierarchy says and not a defect this report has found. It is printed because a route that runs into one has no root to reach, and a breadcrumb that simply stopped there would not say why.\n"@
    }
}

/// Appends the items joined by arrows.
fn push_arrow_joined(out: &mut String, items: &Vec<Named>)
    ensures
        final(out)@ == old(out)@ + arrow_joined(items@),
{
    let ghost start = out@;
    let mut i: usize = 0;
    while i < items.len()
        invariant
            i <= items@.len(),
            out@ == start + arrow_joined(items@.take(i as int)),
        decreases items.len() - i,
    {
        if i > 0 {
            push_str(out, " \u{2192} ");
        }
        push_named(out, &items[i], "  ");
        proof {
            let next = items@.take(i + 1 as int);
            assert(next.drop_last() =~= items@.take(i as int));
            if i == 0 {
                assert(next.len() == 1);
                assert(out@ =~= start + arrow_joined(next));
            }
        }
        i = i + 1;
    }
    assert(items@.take(items@.len() as int) =~= items@);
}

fn push_round(out: &mut String, concepts: &Vec<Named>)
    ensures
        final(out)@ == old(out)@ + "  "@ + arrow_joined(round_of(concepts@)) + "\n"@,
{
    push_str(out, "  ");
    let ghost opened = out@;
    push_arrow_joined(out, concepts);
    if concepts.len() > 0 {
        push_str(out, " \u{2192} ");
        push_named(out, &concepts[0], "  ");
        proof {
            let round = round_of(concepts@);
            assert(round.drop_last() =~= concepts@);
            assert(round.last() == concepts@[0]);
            assert(out@ =~= opened + arrow_joined(round));
        }
    } else {
        assert(round_of(concepts@) == concepts@);
    }
    push_str(out, "\n");
    assert(out@ =~= old(out)@ + "  "@ + arrow_joined(round_of(concepts@)) + "\n"@);
}

fn push_reached(out: &mut String, approach: &Vec<Named>)
    ensures
        final(out)@ == old(out)@ + reached_text(approach@),
{
    if approach.len() == 0 {
        push_str(out, "    reached from the concept asked about, which is in the loop\n");
    } else {
        push_str(out, "    reached from ");
        push_arrow_joined(out, approach);
        push_str(out, "\n");
    }
    assert(out@ =~= old(out)@ + reached_text(approach@));
}

fn push_why(out: &mut String, derivation: &Option<CycleDerivation>)
    ensures
        final(out)@ == old(out)@ + why_text(*derivation),
{
    match derivation {
        Some(why) => {
            push_str(out, "    ");
            push_str(out, why.conclusion.as_str());
            push_str(out, "\n    because ");
            push_str(out, why.premise.as_str());
            push_str(out, "\n    and ");
            push_str(out, why.rule.as_str());
            push_str(out, "\n");
        },
        None => {},
    }
    assert(out@ =~= old(out)@ + why_text(*derivation));
}

fn push_cycle(out: &mut String, cycle: &Cycle)
    ensures
        final(out)@ == old(out)@ + cycle_text(*cycle),
{
    push_round(out, &cycle.concepts);
    push_reached(out, &cycle.approach);
    push_why(out, &cycle.derivation);
    assert(out@ =~= old(out)@ + cycle_text(*cycle));
}

/// Appends the section of a routes report on the loops in the hierarchy at or above the concept:
/// each loop closed back on its first concept, the way up that runs into it, and how it was
/// inferred, then why a loop is no defect. Appends nothing when there is no loop.
pub fn cycles_section(out: &mut String, cycles: &Vec<Cycle>)
    ensures
        final(out)@ == old(out)@ + cycles_section_text(cycles@),
{
    if cycles.len() == 0 {
        assert(out@ =~= old(out)@ + cycles_section_text(cycles@));
        return;
    }
    push_str(out, "\n");
    push_count(out, cycles.len());
    push_str(
        out,
        " cycle(s) in the hierarchy at or above it, each one a way up that reaches no summit:\n",
    );
    let ghost start = out@;
    let mut i: usize = 0;
    while i < cycles.len()
        invariant
            i <= cycles@.len(),
            out@ == start + cycles_text(cycles@.take(i as int)),
        decreases cycles.len() - i,
    {
        push_cycle(out, &cycles[i]);
        proof {
            assert(cycles@.take(i + 1 as int).drop_last() =~= cycles@.take(i as int));
        }
        i = i + 1;
    }
    assert(cycles@.take(cycles@.len() as int) =~= cycles@);
    push_str(
        out,
        "  \u{a7}8.6.8 of the SKOS Reference marks a cycle consistent with the SKOS data model, so this is what the hierarchy says and not a defect this report has found. It is printed because a route that runs into one has no root to reach, and a breadcrumb that simply stopped there would not say why.\n",
    );
    assert(out@ =~= old(out)@ + cycles_section_text(cycles@));
}

/// One step up a route: the concept reached, and whether the graph states the link as
/// `skos:broader` (drawn →) or only as `skos:broaderTransitive` (drawn ⇢).
#[derive(Debug, Clone, PartialEq, Eq)]
pub struct Step {
    /// The concept reached.
    pub concept: Named,
    /// The link is stated as `skos:broader`.
    pub stated: bool,
}

/// A route up from a concept to one with no broader concept.
#[derive(Debug, Clone, PartialEq, Eq)]
pub struct Route {
    /// Where it starts.
    pub origin: Named,
    /// Each step up, in order.
    pub steps: Vec<Step>,
}

/// The steps of a route, each after the arrow that says what licensed it.
pub open spec fn steps_text(steps: Seq<Step>) -> Seq<char>
    decreases steps.len(),
{
    if steps.len() == 0 {
        Seq::empty()
    } else {
        steps_text(steps.drop_last()) + (if steps.last().stated {
            " \u{2192} "@
        } else {
            " \u{21e2} "@
        }) + named_text(steps.last().concept, "  "@)
    }
}

/// One route as an arrow chain.
pub open spec fn chain_text(route: Route) -> Seq<char> {
    named_text(route.origin, "  "@) + steps_text(route.steps@)
}

/// Each route on its numbered line, from `first`, marked `[S24]` when it takes more than one step.
pub open spec fn route_lines(routes: Seq<Route>) -> Seq<char>
    decreases routes.len(),
{
    if routes.len() == 0 {
        Seq::empty()
    } else {
        route_lines(routes.drop_last()) + "  "@ + decimal(routes.len()) + ". "@ + chain_text(
            routes.last(),
        ) + (if routes.last().steps@.len() > 1 {
            "  [S24]"@
        } else {
            Seq::empty()
        }) + "\n"@
    }
}

/// Some route takes more than one step.
pub open spec fn some_inferred(routes: Seq<Route>) -> bool {
    exists|i: int| 0 <= i < routes.len() && (#[trigger] routes[i]).steps@.len() > 1
}

/// Some step of some route is stated only as `skos:broaderTransitive`.
pub open spec fn some_transitive(routes: Seq<Route>) -> bool {
    exists|i: int, k: int|
        0 <= i < routes.len() && 0 <= k < routes[i].steps@.len() && !(#[trigger] routes[i].steps@[k]).stated
}

/// The section of a routes report on the routes themselves.
pub open spec fn routes_text(routes: Seq<Route>, complete: bool, walked: nat, rule: Seq<char>) -> Seq<
    char,
> {
    if routes.len() == 0 {
        if complete {
            "\nno route from it reaches a concept with no broader concept: every way up runs into a cycle. The cycles are below, and they are the answer rather than a failure to find one.\n"@
        } else {
            "\nno route was completed before the enumeration hit its bound, so this is not an answer.\n"@
        }
    } else {
        "\n"@ + decimal(routes.len()) + " route(s) up to a concept with no broader concept, by "@
            + decimal(walked) + " link(s) followed:\n"@ + route_lines(routes) + (if some_inferred(
            routes,
        ) {
            "  a route marked [S24] puts its last concept above its first by a conclusion transitivity licensed rather than by a link the graph states: "@
                + rule + "\n"@
        } else {
            Seq::empty()
        }) + if some_transitive(routes) {
            "  a step drawn \u{21e2} is stated only as skos:broaderTransitive. S22 makes skos:broader a sub-property of skos:broaderTransitive and not the other way round, so such a step says the upper concept is somewhere above the lower one and does not say it is directly above it \u{2014} there may be levels between them this vocabulary does not name.\n"@
        } else {
            Seq::empty()
        }
    }
}

/// Appends one route as an arrow chain; says whether any of its steps is stated only as
/// `skos:broaderTransitive`.
fn push_chain(out: &mut String, route: &Route) -> (transitive: bool)
    ensures
        final(out)@ == old(out)@ + chain_text(*route),
        transitive == exists|k: int| 0 <= k < route.steps@.len() && !(#[trigger] route.steps@[k]).stated,
{
    push_named(out, &route.origin, "  ");
    let ghost start = out@;
    let mut transitive = false;
    let mut k: usize = 0;
    while k < route.steps.len()
        invariant
            k <= route.steps@.len(),
            out@ == start + steps_text(route.steps@.take(k as int)),
            transitive == exists|j: int| 0 <= j < k && !(#[trigger] route.steps@[j]).stated,
        decreases route.steps.len() - k,
    {
        let step = &route.steps[k];
        if step.stated {
            push_str(out, " \u{2192} ");
        } else {
            push_str(out, " \u{21e2} ");
            transitive = true;
        }
        push_named(out, &step.concept, "  ");
        proof {
            let next = route.steps@.take(k + 1 as int);
            assert(next.drop_last() =~= route.steps@.take(k as int));
            assert(next.last() == route.steps@[k as int]);
        }
        k = k + 1;
    }
    assert(route.steps@.take(route.steps@.len() as int) =~= route.steps@);
    assert(out@ =~= old(out)@ + chain_text(*route));
    transitive
}

fn push_route_lines(out: &mut String, routes: &Vec<Route>) -> (seen: (bool, bool))
    requires
        routes@.len() < usize::MAX,
    ensures
        final(out)@ == old(out)@ + route_lines(routes@),
        seen.0 == some_inferred(routes@),
        seen.1 == some_transitive(routes@),
{
    let ghost start = out@;
    let mut inferred = false;
    let mut transitive = false;
    let mut i: usize = 0;
    while i < routes.len()
        invariant
            i <= routes@.len() < usize::MAX,
            out@ == start + route_lines(routes@.take(i as int)),
            inferred == exists|j: int| 0 <= j < i && (#[trigger] routes@[j]).steps@.len() > 1,
            transitive == exists|j: int, k: int|
                0 <= j < i && 0 <= k < routes@[j].steps@.len() && !(#[trigger] routes@[j].steps@[k]).stated,
        decreases routes.len() - i,
    {
        let route = &routes[i];
        push_str(out, "  ");
        push_count(out, i + 1);
        push_str(out, ". ");
        let stated_only = push_chain(out, route);
        if route.steps.len() > 1 {
            push_str(out, "  [S24]");
            inferred = true;
        }
        push_str(out, "\n");
        if stated_only {
            transitive = true;
            proof {
                let k = choose|k: int| 0 <= k < route.steps@.len() && !(#[trigger] route.steps@[k]).stated;
                assert(!routes@[i as int].steps@[k].stated);
            }
        }
        proof {
            let next = routes@.take(i + 1 as int);
            assert(next.drop_last() =~= routes@.take(i as int));
            assert(next.last() == routes@[i as int]);
            assert(next.len() == i + 1);
            assert(out@ =~= start + route_lines(next));
            if !stated_only && transitive {
                let (j, k) = choose|j: int, k: int|
                    0 <= j < i && 0 <= k < routes@[j].steps@.len() && !(#[trigger] routes@[j].steps@[k]).stated;
                assert(j < i + 1);
            }
        }
        i = i + 1;
    }
    assert(routes@.take(routes@.len() as int) =~= routes@);
    (inferred, transitive)
}

/// Appends the section of a routes report on the routes: how many there are and how many links
/// were followed, each as a numbered arrow chain (→ a stated `skos:broader`, ⇢ a link stated only as
/// `skos:broaderTransitive`, `[S24]` on a route that takes more than one step), and what the two
/// marks mean where they appear; or, with no route, whether that is the answer or the bound.
/// `rule` is the statement of the transitivity rule the `[S24]` mark refers to.
pub fn routes_section(out: &mut String, routes: &Vec<Route>, complete: bool, walked: usize, rule: &str)
    requires
        routes@.len() < usize::MAX,
    ensures
        final(out)@ == old(out)@ + routes_text(routes@, complete, walked as nat, rule@),
{
    if routes.len() == 0 {
        if complete {
            push_str(
                out,
                "\nno route from it reaches a concept with no broader concept: every way up runs into a cycle. The cycles are below, and they are the answer rather than a failure to find one.\n",
            );
        } else {
            push_str(
                out,
                "\nno route was completed before the enumeration hit its bound, so this is not an answer.\n",
            );
        }
        return;
    }
    push_str(out, "\n");
    push_count(out, routes.len());
    push_str(out, " route(s) up to a concept with no broader concept, by ");
    push_count(out, walked);
    push_str(out, " link(s) followed:\n");
    let seen = push_route_lines(out, routes);
    if seen.0 {
        push_str(
            out,
            "  a route marked [S24] puts its last concept above its first by a conclusion transitivity licensed rather than by a link the graph states: ",
        );
        push_str(out, rule);
        push_str(out, "\n");
    }
    if seen.1 {
        push_str(
            out,
            "  a step drawn \u{21e2} is stated only as skos:broaderTransitive. S22 makes skos:broader a sub-property of skos:broaderTransitive and not the other way round, so such a step says the upper concept is somewhere above the lower one and does not say it is directly above it \u{2014} there may be levels between them this vocabulary does not name.\n",
        );
    }
    assert(out@ =~= old(out)@ + routes_text(routes@, complete, walked as nat, rule@));
}

/// Everything the walk up from one concept found, as plain values.
#[derive(Debug, Clone, PartialEq, Eq)]
pub struct RootPaths {
    /// Each route up to a concept with no broader concept.
    pub routes: Vec<Route>,
    /// How many links were followed.
    pub walked: usize,
    /// The walk finished within its bound.
    pub complete: bool,
    /// Where the routes stop.
    pub summits: Vec<Summit>,
    /// The scheme top concepts met part way up, in the order the routes meet them.
    pub midway: Vec<Midway>,
    /// The loops at or above the concept.
    pub cycles: Vec<Cycle>,
}

/// What `openbiz paths` reports of the routes up from `concept` in `graph`.
pub open spec fn paths_text(graph: Seq<char>, concept: Named, found: RootPaths, rule: Seq<char>) -> Seq<
    char,
> {
    named_text(concept, "  "@) + "\nin "@ + graph + "\n"@ + routes_text(
        found.routes@,
        found.complete,
        found.walked as nat,
        rule,
    ) + summits_section_text(found.summits@, found.midway@) + cycles_section_text(found.cycles@)
        + if found.complete {
        Seq::empty()
    } else {
        "\nthe enumeration stopped at its bound, so the routes and the cycles above are both lower bounds: there may be routes it never built and loops it never met, and nothing follows from something being absent from either list.\n"@
    }
}

/// What `openbiz paths` reports of the routes up from `concept` in `graph`: the concept, the
/// routes, where they stop, the loops, and, when the walk hit its bound, that every list is a
/// lower bound. `rule` is the statement of the transitivity rule a route of several steps rests
/// on.
pub fn report(graph: &str, concept: &Named, found: &RootPaths, rule: &str) -> (text: String)
    requires
        found.routes@.len() < usize::MAX,
    ensures
        text@ == paths_text(graph@, *concept, *found, rule@),
{
    let mut out = String::new();
    push_named(&mut out, concept, "  ");
    push_str(&mut out, "\nin ");
    push_str(&mut out, graph);
    push_str(&mut out, "\n");
    routes_section(&mut out, &found.routes, found.complete, found.walked, rule);
    summits_section(&mut out, &found.summits, &found.midway);
    cycles_section(&mut out, &found.cycles);
    if !found.complete {
        push_str(
            &mut out,
            "\nthe enumeration stopped at its bound, so the routes and the cycles above are both lower bounds: there may be routes it never built and loops it never met, and nothing follows from something being absent from either list.\n",
        );
    }
    assert(out@ =~= paths_text(graph@, *concept, *found, rule@));
    out
}

} // verus!
