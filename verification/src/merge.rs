//! Merging one concept into another: the phrases its report is written in.

use vstd::prelude::*;

use crate::text::{decimal, push_count, push_str, string_of};

verus! {

/// "1 statement is about it" / "3 statements are about it".
pub open spec fn statements_about_text(count: nat) -> Seq<char> {
    if count == 1 {
        "1 statement is about it"@
    } else {
        decimal(count) + " statements are about it"@
    }
}

/// How many statements are about the merged concept.
pub fn statements_about(count: usize) -> (text: String)
    ensures
        text@ == statements_about_text(count as nat),
{
    if count == 1 {
        string_of("1 statement is about it")
    } else {
        let mut out = String::new();
        push_count(&mut out, count);
        push_str(&mut out, " statements are about it");
        out
    }
}

/// "nothing points at" / "1 points at" / "2 point at".
pub open spec fn statements_at_text(count: nat) -> Seq<char> {
    if count == 0 {
        "nothing points at"@
    } else if count == 1 {
        "1 points at"@
    } else {
        decimal(count) + " point at"@
    }
}

/// How many statements point at the merged concept.
pub fn statements_at(count: usize) -> (text: String)
    ensures
        text@ == statements_at_text(count as nat),
{
    if count == 0 {
        string_of("nothing points at")
    } else if count == 1 {
        string_of("1 points at")
    } else {
        let mut out = String::new();
        push_count(&mut out, count);
        push_str(&mut out, " point at");
        out
    }
}

} // verus!
