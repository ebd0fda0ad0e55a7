//! Searching a vocabulary's labels: what the report says about the hits it does not list.

use vstd::prelude::*;

use crate::text::{decimal, push_count, push_str};

verus! {

/// The note for labels matched on retired concepts and left out because only current concepts
/// were asked for; nothing when nothing was left out.
pub open spec fn withheld_text(withheld: nat, withheld_resources: nat) -> Seq<char> {
    if withheld == 0 {
        seq![]
    } else {
        "\n"@ + decimal(withheld) + " more label(s) matched, on "@ + decimal(withheld_resources)
            + " retired concept(s), and are not listed because --current was asked for. They are in this vocabulary: run the same search without --current to see them and what each one says to use instead.\n"@
    }
}

/// Appends to `out` how many labels matched on retired concepts and were left out, and how to
/// get them back. Nothing is appended when nothing was left out.
pub fn withheld_note(out: &mut String, withheld: usize, withheld_resources: usize)
    ensures
        final(out)@ == old(out)@ + withheld_text(withheld as nat, withheld_resources as nat),
{
    if withheld == 0 {
        proof {
            assert(old(out)@ + seq![] =~= old(out)@);
        }
        return;
    }
    push_str(out, "\n");
    push_count(out, withheld);
    push_str(out, " more label(s) matched, on ");
    push_count(out, withheld_resources);
    push_str(
        out,
        " retired concept(s), and are not listed because --current was asked for. They are in this vocabulary: run the same search without --current to see them and what each one says to use instead.\n",
    );
    proof {
        assert(final(out)@ =~= old(out)@ + withheld_text(
            withheld as nat,
            withheld_resources as nat,
        ));
    }
}

} // verus!
