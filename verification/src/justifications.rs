//! The recorded justifications for creating a concept despite an existing match: what the report
//! says when it has nothing to show, and what it can never prove.

use vstd::prelude::*;

use crate::cli::{debug_quoted, quoted};
use crate::text::{decimal, push_count, push_str, string_of};

verus! {

/// Said in both the full and the empty report, because it is the limit of what either proves.
pub const NOT_ENFORCED: &'static str = "\nnothing in this build refuses a creation that has no justification: there is no single-step create to attach that refusal to, so these records are what people chose to write down rather than everything that happened.\n";

/// Why an empty report is not a clean bill of health.
pub const NOT_A_CLEAN_BILL: &'static str = "  which is not the same as \"nothing was created despite a match\": a justification is recorded when somebody asks for one, so an empty report and a store where nobody used --because look identical from here\n";

/// The empty report: nothing recorded, for one vocabulary or across all of them, with how many
/// records the store holds for others when the report was for one.
pub open spec fn empty_text(only: Option<Seq<char>>, held: nat) -> Seq<char> {
    (match only {
        Some(_) => if held == 0 {
            "\nnothing is recorded, here or anywhere in this store\n"@
        } else {
            "\nnothing is recorded for this vocabulary; the store holds "@ + decimal(held)
                + " record(s) for others\n"@
        },
        None => "\nnothing is recorded\n"@,
    }) + NOT_A_CLEAN_BILL@ + NOT_ENFORCED@
}

/// Nothing to show, and what that does and does not mean. `only` is the vocabulary the report
/// was asked about, if it was asked about one; `held` is how many records the store holds.
pub fn empty(only: Option<&str>, held: usize) -> (text: String)
    ensures
        text@ == empty_text(
            match only {
                Some(graph) => Some(graph@),
                None => None,
            },
            held as nat,
        ),
{
    let mut out = match only {
        Some(_) => if held == 0 {
            string_of("\nnothing is recorded, here or anywhere in this store\n")
        } else {
            let mut text = string_of("\nnothing is recorded for this vocabulary; the store holds ");
            push_count(&mut text, held);
            push_str(&mut text, " record(s) for others\n");
            text
        },
        None => string_of("\nnothing is recorded\n"),
    };
    push_str(&mut out, NOT_A_CLEAN_BILL);
    push_str(&mut out, NOT_ENFORCED);
    out
}

/// A recorded justification for creating a concept despite what discovery found, as plain values.
#[derive(Debug, Clone, PartialEq, Eq)]
pub struct JustificationRecord {
    /// Its identifier.
    pub id: String,
    /// The concept created.
    pub concept: String,
    /// The label it was created under.
    pub label: String,
    /// The vocabulary it was created in.
    pub graph: String,
    /// The existing resources passed over, as reports write them.
    pub considered: Vec<String>,
    /// Why none of them fitted.
    pub reason: String,
    /// Who recorded it.
    pub recorded_by: String,
    /// When, as reports write it.
    pub recorded_at: String,
    /// The search behind it finished.
    pub complete: bool,
}

/// Each item on its line, indented by `indent`.
pub open spec fn listed_lines(items: Seq<String>, indent: Seq<char>) -> Seq<char>
    decreases items.len(),
{
    if items.len() == 0 {
        Seq::empty()
    } else {
        listed_lines(items.drop_last(), indent) + indent + items.last()@ + "\n"@
    }
}

/// Appends each item on its line, indented by `indent`.
pub fn push_listed(out: &mut String, items: &Vec<String>, indent: &str)
    ensures
        final(out)@ == old(out)@ + listed_lines(items@, indent@),
{
    let ghost start = out@;
    let mut i: usize = 0;
    while i < items.len()
        invariant
            i <= items@.len(),
            out@ == start + listed_lines(items@.take(i as int), indent@),
        decreases items.len() - i,
    {
        push_str(out, indent);
        push_str(out, items[i].as_str());
        push_str(out, "\n");
        proof {
            assert(items@.take(i + 1 as int).drop_last() =~= items@.take(i as int));
        }
        i = i + 1;
    }
    assert(items@.take(items@.len() as int) =~= items@);
}

/// One record, laid out so that what was justified is read before the justification.
pub open spec fn entry_text(record: JustificationRecord, name_the_graph: bool) -> Seq<char> {
    "\n  "@ + record.id@ + " \u{2014} "@ + record.concept@ + "\n    created under "@ + debug_quoted(
        record.label@,
    ) + "\n"@ + (if name_the_graph {
        "    in "@ + record.graph@ + "\n"@
    } else {
        Seq::empty()
    }) + (if record.considered@.len() == 0 {
        "    nothing existing was found under that label\n"@
    } else {
        "    "@ + decimal(record.considered@.len()) + " existing resource(s) passed over:\n"@
            + listed_lines(record.considered@, "      "@)
    }) + "    because "@ + debug_quoted(record.reason@) + "\n    recorded by "@ + record.recorded_by@
        + " at "@ + record.recorded_at@ + "\n"@ + if record.complete {
        Seq::empty()
    } else {
        "    the search behind this record did not finish\n"@
    }
}

fn push_entry_head(out: &mut String, record: &JustificationRecord, name_the_graph: bool)
    ensures
        final(out)@ == old(out)@ + "\n  "@ + record.id@ + " \u{2014} "@ + record.concept@
            + "\n    created under "@ + debug_quoted(record.label@) + "\n"@ + (if name_the_graph {
            "    in "@ + record.graph@ + "\n"@
        } else {
            Seq::empty()
        }),
{
    push_str(out, "\n  ");
    push_str(out, record.id.as_str());
    push_str(out, " \u{2014} ");
    push_str(out, record.concept.as_str());
    push_str(out, "\n    created under ");
    let label = quoted(record.label.as_str());
    push_str(out, label.as_str());
    push_str(out, "\n");
    if name_the_graph {
        push_str(out, "    in ");
        push_str(out, record.graph.as_str());
        push_str(out, "\n");
    }
    assert(out@ =~= old(out)@ + "\n  "@ + record.id@ + " \u{2014} "@ + record.concept@
        + "\n    created under "@ + debug_quoted(record.label@) + "\n"@ + (if name_the_graph {
        "    in "@ + record.graph@ + "\n"@
    } else {
        Seq::empty()
    }));
}

/// One recorded justification: what was created and under which label, in which vocabulary when
/// the report spans several, what was passed over, why, who recorded it and when, and whether
/// the search behind it finished.
pub fn entry(record: &JustificationRecord, name_the_graph: bool) -> (text: String)
    ensures
        text@ == entry_text(*record, name_the_graph),
{
    let mut out = String::new();
    push_entry_head(&mut out, record, name_the_graph);
    if record.considered.len() == 0 {
        push_str(&mut out, "    nothing existing was found under that label\n");
    } else {
        push_str(&mut out, "    ");
        push_count(&mut out, record.considered.len());
        push_str(&mut out, " existing resource(s) passed over:\n");
        push_listed(&mut out, &record.considered, "      ");
    }
    push_str(&mut out, "    because ");
    let reason = quoted(record.reason.as_str());
    push_str(&mut out, reason.as_str());
    push_str(&mut out, "\n    recorded by ");
    push_str(&mut out, record.recorded_by.as_str());
    push_str(&mut out, " at ");
    push_str(&mut out, record.recorded_at.as_str());
    push_str(&mut out, "\n");
    if !record.complete {
        push_str(&mut out, "    the search behind this record did not finish\n");
    }
    assert(out@ =~= entry_text(*record, name_the_graph));
    out
}

} // verus!
