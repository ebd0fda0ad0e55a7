//! The integrity roll-call's verdicts: every condition, named, with whether it held, was
//! violated, or was not checked. Collapsing "unchecked" into "held" is the false green this
//! report exists to refuse.

use vstd::prelude::*;

use crate::text::{decimal, push_count, push_str};

verus! {

/// What checking one condition over a vocabulary came to.
#[derive(Debug, Clone, Copy, PartialEq, Eq, Structural)]
pub enum Verdict {
    /// Checked over the whole vocabulary, and no counter-example found.
    Held,
    /// At least one counter-example found.
    Violated,
    /// Not checked over the whole vocabulary, so there is no verdict.
    Unchecked,
}

/// Whose word a condition is.
#[derive(Debug, Clone, Copy, PartialEq, Eq, Structural)]
pub enum Authority {
    /// One of the specification's own integrity conditions.
    Specification,
    /// A statement this build treats as a contradiction, by its own reading.
    OurReading,
}

/// One condition's outcome, as the headline reads it.
#[derive(Debug, Clone, Copy, PartialEq, Eq, Structural)]
pub struct ConditionVerdict {
    /// Whose word the condition is.
    pub authority: Authority,
    /// What checking it came to.
    pub verdict: Verdict,
}

/// How many of `outcomes` came to `verdict`.
pub open spec fn count_of(outcomes: Seq<ConditionVerdict>, verdict: Verdict) -> nat
    decreases outcomes.len(),
{
    if outcomes.len() == 0 {
        0
    } else {
        count_of(outcomes.drop_last(), verdict) + if outcomes.last().verdict == verdict {
            1nat
        } else {
            0nat
        }
    }
}

/// How many of the specification's own conditions came to `verdict`.
pub open spec fn specified_count_of(outcomes: Seq<ConditionVerdict>, verdict: Verdict) -> nat
    decreases outcomes.len(),
{
    if outcomes.len() == 0 {
        0
    } else {
        specified_count_of(outcomes.drop_last(), verdict) + if outcomes.last().verdict == verdict
            && outcomes.last().authority == Authority::Specification {
            1nat
        } else {
            0nat
        }
    }
}

proof fn lemma_counts_bounded(outcomes: Seq<ConditionVerdict>, verdict: Verdict)
    ensures
        count_of(outcomes, verdict) <= outcomes.len(),
        specified_count_of(outcomes, verdict) <= outcomes.len(),
    decreases outcomes.len(),
{
    if outcomes.len() > 0 {
        lemma_counts_bounded(outcomes.drop_last(), verdict);
    }
}

/// The headline: what the vocabulary is, in one sentence. A violation anywhere decides it; then
/// anything unchecked; only then is it held.
pub open spec fn verdict_text(outcomes: Seq<ConditionVerdict>) -> Seq<char> {
    let violated = count_of(outcomes, Verdict::Violated);
    let unchecked = count_of(outcomes, Verdict::Unchecked);
    if violated > 0 {
        "VIOLATED — "@ + decimal(violated) + " of "@ + decimal(outcomes.len())
            + " condition(s) checked here, "@ + decimal(
            specified_count_of(outcomes, Verdict::Violated),
        ) + " of the specification's six, are violated.\nthis graph is not a SKOS vocabulary."@
    } else if unchecked > 0 {
        "UNCHECKED — no violation was found, and "@ + decimal(unchecked) + " of "@ + decimal(
            outcomes.len(),
        )
            + " condition(s) were not checked over the whole\nvocabulary. That is not the same as holding: see the detail below for what each one is missing."@
    } else {
        "HELD — all "@ + decimal(outcomes.len())
            + " condition(s) were checked over the whole vocabulary and none is violated."@
    }
}

/// How many of `outcomes` came to `verdict`, and how many of those are the specification's own.
fn counts(outcomes: &[ConditionVerdict], verdict: Verdict) -> (counted: (usize, usize))
    ensures
        counted.0 == count_of(outcomes@, verdict),
        counted.1 == specified_count_of(outcomes@, verdict),
{
    let mut all: usize = 0;
    let mut specified: usize = 0;
    let mut i: usize = 0;
    while i < outcomes.len()
        invariant
            i <= outcomes@.len(),
            all == count_of(outcomes@.take(i as int), verdict),
            specified == specified_count_of(outcomes@.take(i as int), verdict),
        decreases outcomes@.len() - i,
    {
        proof {
            assert(outcomes@.take(i + 1).drop_last() =~= outcomes@.take(i as int));
            lemma_counts_bounded(outcomes@.take(i as int), verdict);
        }
        if outcomes[i].verdict == verdict {
            all = all + 1;
            if outcomes[i].authority == Authority::Specification {
                specified = specified + 1;
            }
        }
        i = i + 1;
    }
    proof {
        assert(outcomes@.take(i as int) =~= outcomes@);
    }
    (all, specified)
}

/// The headline: what this vocabulary is, in one sentence.
pub fn verdict_line(outcomes: &[ConditionVerdict]) -> (line: String)
    ensures
        line@ == verdict_text(outcomes@),
{
    let (violated, specified_violated) = counts(outcomes, Verdict::Violated);
    let (unchecked, _) = counts(outcomes, Verdict::Unchecked);
    let mut out = String::new();
    if violated > 0 {
        push_str(&mut out, "VIOLATED — ");
        push_count(&mut out, violated);
        push_str(&mut out, " of ");
        push_count(&mut out, outcomes.len());
        push_str(&mut out, " condition(s) checked here, ");
        push_count(&mut out, specified_violated);
        push_str(
            &mut out,
            " of the specification's six, are violated.\nthis graph is not a SKOS vocabulary.",
        );
    } else if unchecked > 0 {
        push_str(&mut out, "UNCHECKED — no violation was found, and ");
        push_count(&mut out, unchecked);
        push_str(&mut out, " of ");
        push_count(&mut out, outcomes.len());
        push_str(
            &mut out,
            " condition(s) were not checked over the whole\nvocabulary. That is not the same as holding: see the detail below for what each one is missing.",
        );
    } else {
        push_str(&mut out, "HELD — all ");
        push_count(&mut out, outcomes.len());
        push_str(
            &mut out,
            " condition(s) were checked over the whole vocabulary and none is violated.",
        );
    }
    proof {
        assert(out@ =~= verdict_text(outcomes@));
    }
    out
}

/// What "held" means, said once, at the end where a reader stops.
pub open spec fn closing_text(outcomes: Seq<ConditionVerdict>) -> Seq<char> {
    "\n"@ + decimal(count_of(outcomes, Verdict::Held))
        + " condition(s) held. \"Held\" means the check ran over this whole vocabulary and found no\ncounter-example — it is a statement about what is in the graph, not about what a later edit might add.\n"@
}

/// What "held" means, with how many conditions it applies to.
pub fn closing(outcomes: &[ConditionVerdict]) -> (text: String)
    ensures
        text@ == closing_text(outcomes@),
{
    let (held, _) = counts(outcomes, Verdict::Held);
    let mut out = String::new();
    push_str(&mut out, "\n");
    push_count(&mut out, held);
    push_str(
        &mut out,
        " condition(s) held. \"Held\" means the check ran over this whole vocabulary and found no\ncounter-example — it is a statement about what is in the graph, not about what a later edit might add.\n",
    );
    proof {
        assert(out@ =~= closing_text(outcomes@));
    }
    out
}

/// **Nothing unchecked reads as held.** The headline says HELD only when every condition held;
/// a violation anywhere makes it VIOLATED, and otherwise anything unchecked makes it UNCHECKED.
pub proof fn lemma_held_only_when_everything_held(outcomes: Seq<ConditionVerdict>)
    ensures
        verdict_text(outcomes) == ("HELD — all "@ + decimal(outcomes.len())
            + " condition(s) were checked over the whole vocabulary and none is violated."@)
            <==> count_of(outcomes, Verdict::Held) == outcomes.len(),
    decreases outcomes.len(),
{
    lemma_counts_partition(outcomes);
    let held_text = "HELD — all "@ + decimal(outcomes.len())
        + " condition(s) were checked over the whole vocabulary and none is violated."@;
    let violated = count_of(outcomes, Verdict::Violated);
    let unchecked = count_of(outcomes, Verdict::Unchecked);
    reveal_strlit("VIOLATED — ");
    reveal_strlit("UNCHECKED — no violation was found, and ");
    reveal_strlit("HELD — all ");
    if violated > 0 {
        assert(verdict_text(outcomes)[0] == 'V');
        assert(held_text[0] == 'H');
    } else if unchecked > 0 {
        assert(verdict_text(outcomes)[0] == 'U');
        assert(held_text[0] == 'H');
    }
}

/// Every condition came to exactly one verdict.
proof fn lemma_counts_partition(outcomes: Seq<ConditionVerdict>)
    ensures
        count_of(outcomes, Verdict::Held) + count_of(outcomes, Verdict::Violated) + count_of(
            outcomes,
            Verdict::Unchecked,
        ) == outcomes.len(),
    decreases outcomes.len(),
{
    if outcomes.len() > 0 {
        lemma_counts_partition(outcomes.drop_last());
    }
}

} // verus!
