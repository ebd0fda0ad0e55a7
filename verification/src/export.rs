//! What an export's response says about itself: the filename a browser saves it under, and the
//! graph's IRI in a form a header can carry.

use vstd::prelude::*;
use vstd::string::*;

use crate::accept::chars_of;
use crate::text::{push_char, push_str};

verus! {

/// A character that ends a segment of an IRI, for the purpose of finding its last one.
pub open spec fn is_separator(c: char) -> bool {
    c == '/' || c == '#' || c == ':'
}

/// The run of characters at the end of `s` that holds no separator.
pub open spec fn trailing_segment(s: Seq<char>) -> Seq<char>
    decreases s.len(),
{
    if s.len() == 0 || is_separator(s.last()) {
        seq![]
    } else {
        trailing_segment(s.drop_last()).push(s.last())
    }
}

/// The last segment of `s` that is not empty, or nothing if every segment is.
pub open spec fn last_segment(s: Seq<char>) -> Seq<char>
    decreases s.len(),
{
    if s.len() == 0 {
        seq![]
    } else if is_separator(s.last()) {
        last_segment(s.drop_last())
    } else {
        trailing_segment(s)
    }
}

/// A character every filesystem accepts in a filename: ASCII letters and digits, `-`, `_`, `.`.
pub open spec fn is_safe(c: char) -> bool {
    ('0' <= c <= '9') || ('a' <= c <= 'z') || ('A' <= c <= 'Z') || c == '-' || c == '_' || c
        == '.'
}

/// `s` with every unsafe character made a hyphen, and each run of hyphens made one.
pub open spec fn slugged(s: Seq<char>) -> Seq<char>
    decreases s.len(),
{
    if s.len() == 0 {
        seq![]
    } else {
        let before = slugged(s.drop_last());
        let c = if is_safe(s.last()) {
            s.last()
        } else {
            '-'
        };
        if c == '-' && before.len() > 0 && before.last() == '-' {
            before
        } else {
            before.push(c)
        }
    }
}

/// A character trimmed from both ends of a filename: a hyphen or a dot.
pub open spec fn is_trimmed(c: char) -> bool {
    c == '-' || c == '.'
}

/// `s` without the hyphens and dots it starts with.
pub open spec fn trim_front(s: Seq<char>) -> Seq<char>
    decreases s.len(),
{
    if s.len() > 0 && is_trimmed(s[0]) {
        trim_front(s.drop_first())
    } else {
        s
    }
}

/// `s` without the hyphens and dots it ends with.
pub open spec fn trim_back(s: Seq<char>) -> Seq<char>
    decreases s.len(),
{
    if s.len() > 0 && is_trimmed(s.last()) {
        trim_back(s.drop_last())
    } else {
        s
    }
}

/// The filename an export of the graph at `iri` is saved under, with `extension`: the IRI's last
/// meaningful segment made safe to write, or `graph` when nothing of it is.
pub open spec fn download_name_of(iri: Seq<char>, extension: Seq<char>) -> Seq<char> {
    let slug = trim_back(trim_front(slugged(last_segment(iri))));
    (if slug.len() == 0 {
        "graph"@
    } else {
        slug
    }) + seq!['.'] + extension
}

proof fn lemma_trailing_segment(s: Seq<char>, i: int)
    requires
        0 <= i <= s.len(),
        forall|k: int| i <= k < s.len() ==> !is_separator(#[trigger] s[k]),
        i == 0 || is_separator(s[i - 1]),
    ensures
        trailing_segment(s) == s.subrange(i, s.len() as int),
    decreases s.len() - i,
{
    if i < s.len() {
        let rest = s.drop_last();
        assert forall|k: int| i <= k < rest.len() implies !is_separator(#[trigger] rest[k]) by {
            assert(rest[k] == s[k]);
        }
        lemma_trailing_segment(rest, i);
        assert(rest.subrange(i, rest.len() as int).push(s.last()) =~= s.subrange(
            i,
            s.len() as int,
        ));
    } else {
        assert(s.subrange(i, s.len() as int) =~= seq![]);
    }
}

proof fn lemma_last_segment(s: Seq<char>, j: int)
    requires
        0 <= j <= s.len(),
        forall|k: int| j <= k < s.len() ==> is_separator(#[trigger] s[k]),
    ensures
        last_segment(s) == last_segment(s.take(j)),
    decreases s.len() - j,
{
    if j < s.len() {
        let rest = s.drop_last();
        assert forall|k: int| j <= k < rest.len() implies is_separator(#[trigger] rest[k]) by {
            assert(rest[k] == s[k]);
        }
        lemma_last_segment(rest, j);
        assert(rest.take(j) =~= s.take(j));
    } else {
        assert(s.take(j) =~= s);
    }
}

/// Copies `tail` into a filename-safe slug, collapsing each run of hyphens to one.
fn slug_of(tail: &Vec<char>) -> (slug: Vec<char>)
    ensures
        slug@ == slugged(tail@),
{
    let mut slug: Vec<char> = Vec::new();
    let mut k: usize = 0;
    while k < tail.len()
        invariant
            k <= tail@.len(),
            slug@ == slugged(tail@.take(k as int)),
        decreases tail@.len() - k,
    {
        let c = tail[k];
        let safe = ('0' <= c && c <= '9') || ('a' <= c && c <= 'z') || ('A' <= c && c <= 'Z') || c
            == '-' || c == '_' || c == '.';
        let replacement = if safe {
            c
        } else {
            '-'
        };
        proof {
            assert(tail@.take(k + 1 as int).drop_last() =~= tail@.take(k as int));
        }
        if replacement == '-' && slug.len() > 0 && slug[slug.len() - 1] == '-' {
        } else {
            slug.push(replacement);
        }
        k = k + 1;
    }
    proof {
        assert(tail@.take(k as int) =~= tail@);
    }
    slug
}

/// `slug` without the hyphens and dots at either end.
fn trim_ends(slug: &Vec<char>) -> (trimmed: Vec<char>)
    ensures
        trimmed@ == trim_back(trim_front(slug@)),
{
    let mut a: usize = 0;
    proof {
        assert(slug@.skip(0) =~= slug@);
    }
    while a < slug.len() && (slug[a] == '-' || slug[a] == '.')
        invariant
            a <= slug@.len(),
            trim_front(slug@) == trim_front(slug@.skip(a as int)),
        decreases slug@.len() - a,
    {
        proof {
            assert(slug@.skip(a as int).drop_first() =~= slug@.skip(a + 1 as int));
        }
        a = a + 1;
    }
    let mut out: Vec<char> = Vec::new();
    let mut i = a;
    while i < slug.len()
        invariant
            a <= i <= slug@.len(),
            out@ == slug@.subrange(a as int, i as int),
        decreases slug@.len() - i,
    {
        out.push(slug[i]);
        i = i + 1;
        proof {
            assert(out@ =~= slug@.subrange(a as int, i as int));
        }
    }
    proof {
        assert(out@ =~= slug@.skip(a as int));
    }
    while out.len() > 0 && (out[out.len() - 1] == '-' || out[out.len() - 1] == '.')
        invariant
            trim_back(out@) == trim_back(trim_front(slug@)),
        decreases out@.len(),
    {
        out.pop();
    }
    out
}

/// A filename a browser can save and a human can recognise afterwards: the IRI's last
/// meaningful segment, with everything outside a conservative ASCII set made a hyphen, and
/// `extension` after a dot. A segment with nothing usable in it is named `graph`.
pub fn download_name(iri: &str, extension: &str) -> (name: String)
    ensures
        name@ == download_name_of(iri@, extension@),
{
    let chars = chars_of(iri);
    let mut j = chars.len();
    while j > 0 && (chars[j - 1] == '/' || chars[j - 1] == '#' || chars[j - 1] == ':')
        invariant
            j <= chars@.len(),
            forall|k: int| j <= k < chars@.len() ==> is_separator(#[trigger] chars@[k]),
        decreases j,
    {
        j = j - 1;
    }
    let mut i = j;
    while i > 0 && !(chars[i - 1] == '/' || chars[i - 1] == '#' || chars[i - 1] == ':')
        invariant
            i <= j <= chars@.len(),
            forall|k: int| i <= k < j ==> !is_separator(#[trigger] chars@[k]),
        decreases i,
    {
        i = i - 1;
    }
    let mut tail: Vec<char> = Vec::new();
    let mut k = i;
    while k < j
        invariant
            i <= k <= j,
            j <= chars@.len(),
            tail@ == chars@.subrange(i as int, k as int),
        decreases j - k,
    {
        tail.push(chars[k]);
        k = k + 1;
        proof {
            assert(tail@ =~= chars@.subrange(i as int, k as int));
        }
    }
    proof {
        lemma_last_segment(chars@, j as int);
        let front = chars@.take(j as int);
        assert forall|m: int| i <= m < front.len() implies !is_separator(#[trigger] front[m]) by {
            assert(front[m] == chars@[m]);
        }
        lemma_trailing_segment(front, i as int);
        assert(front.subrange(i as int, j as int) =~= chars@.subrange(i as int, j as int));
        if j > 0 {
            assert(front.last() == chars@[j - 1]);
        }
    }
    let slug = trim_ends(&slug_of(&tail));
    let mut name = String::new();
    if slug.len() == 0 {
        push_str(&mut name, "graph");
    } else {
        let mut m: usize = 0;
        while m < slug.len()
            invariant
                m <= slug@.len(),
                name@ == slug@.take(m as int),
            decreases slug@.len() - m,
        {
            push_char(&mut name, slug[m]);
            m = m + 1;
            proof {
                assert(name@ =~= slug@.take(m as int));
            }
        }
        proof {
            assert(slug@.take(m as int) =~= slug@);
        }
    }
    push_char(&mut name, '.');
    push_str(&mut name, extension);
    proof {
        let chosen = if slug@.len() == 0 {
            "graph"@
        } else {
            slug@
        };
        assert(name@ =~= chosen + seq!['.'] + extension@);
    }
    name
}

/// The hexadecimal digit, in upper case, for a value below sixteen.
pub open spec fn hex_digit(d: nat) -> char {
    if d < 10 {
        ('0' as nat + d) as char
    } else {
        ('A' as nat + (d - 10)) as char
    }
}

/// Whether a header value may carry `b` as it is: printable ASCII other than space, and not the
/// escape character itself.
pub open spec fn carried(b: u8) -> bool {
    0x21 <= b <= 0x7e && b != 0x25
}

/// One byte as a header value carries it: itself, or `%` and two upper-case hex digits.
pub open spec fn escaped_byte(b: u8) -> Seq<char> {
    if carried(b) {
        seq![b as char]
    } else {
        seq!['%', hex_digit((b / 16) as nat), hex_digit((b % 16) as nat)]
    }
}

/// `bytes`, each escaped in turn.
pub open spec fn escaped(bytes: Seq<u8>) -> Seq<char>
    decreases bytes.len(),
{
    if bytes.len() == 0 {
        seq![]
    } else {
        escaped(bytes.drop_last()) + escaped_byte(bytes.last())
    }
}

fn hex_of(d: u8) -> (c: char)
    requires
        d < 16,
    ensures
        c == hex_digit(d as nat),
{
    if d == 0 { '0' }
    else if d == 1 { '1' }
    else if d == 2 { '2' }
    else if d == 3 { '3' }
    else if d == 4 { '4' }
    else if d == 5 { '5' }
    else if d == 6 { '6' }
    else if d == 7 { '7' }
    else if d == 8 { '8' }
    else if d == 9 { '9' }
    else if d == 10 { 'A' }
    else if d == 11 { 'B' }
    else if d == 12 { 'C' }
    else if d == 13 { 'D' }
    else if d == 14 { 'E' }
    else { 'F' }
}

/// Percent-escape anything an HTTP header value may not carry, byte by byte of its UTF-8 form.
/// `%` is escaped too, so the encoding can be undone.
pub fn ascii_escaped(value: &str) -> (out: String)
    ensures
        out@ == escaped(value.spec_bytes()),
{
    let bytes = value.as_bytes();
    let mut out = String::new();
    let mut i: usize = 0;
    while i < bytes.len()
        invariant
            i <= bytes@.len(),
            bytes@ == value.spec_bytes(),
            out@ == escaped(bytes@.take(i as int)),
        decreases bytes@.len() - i,
    {
        let b = bytes[i];
        proof {
            assert(bytes@.take(i + 1 as int).drop_last() =~= bytes@.take(i as int));
        }
        if b == 0x25 || b < 0x21 || b > 0x7e {
            push_char(&mut out, '%');
            push_char(&mut out, hex_of(b / 16));
            push_char(&mut out, hex_of(b % 16));
        } else {
            push_char(&mut out, b as char);
        }
        i = i + 1;
        proof {
            assert(out@ =~= escaped(bytes@.take(i as int)));
        }
    }
    proof {
        assert(bytes@.take(i as int) =~= bytes@);
    }
    out
}

proof fn lemma_slugged_is_safe(s: Seq<char>)
    ensures
        forall|k: int| 0 <= k < slugged(s).len() ==> is_safe(#[trigger] slugged(s)[k]),
    decreases s.len(),
{
    if s.len() > 0 {
        let before = slugged(s.drop_last());
        lemma_slugged_is_safe(s.drop_last());
        assert forall|k: int| 0 <= k < slugged(s).len() implies is_safe(#[trigger] slugged(s)[k]) by {
            if k < before.len() {
                assert(slugged(s)[k] == before[k]);
            }
        }
    }
}

proof fn lemma_trim_front(s: Seq<char>)
    ensures
        trim_front(s) == s.skip(s.len() - trim_front(s).len()),
        trim_front(s).len() <= s.len(),
        trim_front(s).len() > 0 ==> !is_trimmed(trim_front(s)[0]),
    decreases s.len(),
{
    if s.len() > 0 && is_trimmed(s[0]) {
        lemma_trim_front(s.drop_first());
        assert(s.drop_first().skip(s.drop_first().len() - trim_front(s).len()) =~= s.skip(
            s.len() - trim_front(s).len(),
        ));
    } else {
        assert(s.skip(0) =~= s);
    }
}

proof fn lemma_trim_back(s: Seq<char>)
    ensures
        trim_back(s) == s.take(trim_back(s).len() as int),
        trim_back(s).len() <= s.len(),
        trim_back(s).len() > 0 ==> !is_trimmed(trim_back(s).last()),
    decreases s.len(),
{
    if s.len() > 0 && is_trimmed(s.last()) {
        lemma_trim_back(s.drop_last());
        assert(s.drop_last().take(trim_back(s).len() as int) =~= s.take(
            trim_back(s).len() as int,
        ));
    } else {
        assert(s.take(s.len() as int) =~= s);
    }
}

/// Whatever the IRI, the filename is a stem, a dot and `extension`; the stem is not empty, holds
/// nothing but ASCII letters, digits, `-`, `_` and `.`, and neither starts nor ends with a hyphen
/// or a dot. So no IRI can put a path separator or a quote into a downloaded filename, or make it
/// a hidden file.
pub proof fn lemma_download_name_is_safe(iri: Seq<char>, extension: Seq<char>)
    ensures
        ({
            let name = download_name_of(iri, extension);
            let stem = name.len() - extension.len() - 1;
            &&& stem > 0
            &&& forall|k: int| 0 <= k < stem ==> is_safe(#[trigger] name[k])
            &&& !is_trimmed(name[0])
            &&& !is_trimmed(name[stem - 1])
            &&& name.skip(stem) == seq!['.'] + extension
        }),
{
    let slugs = slugged(last_segment(iri));
    let front = trim_front(slugs);
    let slug = trim_back(front);
    lemma_slugged_is_safe(last_segment(iri));
    lemma_trim_front(slugs);
    lemma_trim_back(front);
    let stem_text = if slug.len() == 0 {
        "graph"@
    } else {
        slug
    };
    reveal_strlit("graph");
    let name = download_name_of(iri, extension);
    assert(name == stem_text + seq!['.'] + extension);
    assert forall|k: int| 0 <= k < stem_text.len() implies is_safe(#[trigger] stem_text[k]) by {
        if slug.len() > 0 {
            assert(slug[k] == front[k]);
            assert(front[k] == slugs[k + slugs.len() - front.len()]);
        }
    }
    if slug.len() > 0 {
        assert(slug[0] == front[0]);
    }
    assert forall|k: int| 0 <= k < stem_text.len() implies is_safe(#[trigger] name[k]) by {
        assert(name[k] == stem_text[k]);
    }
    assert(name.skip(stem_text.len() as int) =~= seq!['.'] + extension);
}

proof fn lemma_escaped_concat(a: Seq<u8>, b: Seq<u8>)
    ensures
        escaped(a + b) == escaped(a) + escaped(b),
    decreases b.len(),
{
    if b.len() == 0 {
        assert(a + b =~= a);
        assert(escaped(a) + seq![] =~= escaped(a));
    } else {
        lemma_escaped_concat(a, b.drop_last());
        assert((a + b).drop_last() =~= a + b.drop_last());
        assert(escaped(a) + escaped(b.drop_last()) + escaped_byte(b.last()) =~= escaped(a) + (
        escaped(b.drop_last()) + escaped_byte(b.last())));
    }
}

/// The value of a hexadecimal digit, upper or lower case.
pub open spec fn hex_value(c: char) -> int {
    if '0' <= c <= '9' {
        c as int - '0' as int
    } else if 'a' <= c <= 'f' {
        c as int - 'a' as int + 10
    } else {
        c as int - 'A' as int + 10
    }
}

/// Undoes the escaping: `%` and two hex digits are one byte, and every other character is the
/// byte of its code.
pub open spec fn unescaped(text: Seq<char>) -> Seq<u8>
    decreases text.len(),
{
    if text.len() == 0 {
        seq![]
    } else if text[0] == '%' && text.len() >= 3 {
        seq![(hex_value(text[1]) * 16 + hex_value(text[2])) as u8] + unescaped(text.skip(3))
    } else {
        seq![text[0] as u8] + unescaped(text.skip(1))
    }
}

proof fn lemma_escaped_byte(b: u8, rest: Seq<char>)
    ensures
        unescaped(escaped_byte(b) + rest) == seq![b] + unescaped(rest),
        forall|k: int|
            0 <= k < escaped_byte(b).len() ==> 0x21 <= #[trigger] (escaped_byte(b)[k] as int) <= 0x7e,
{
    let text = escaped_byte(b) + rest;
    if carried(b) {
        assert(text[0] == b as char);
        assert(text.skip(1) =~= rest);
    } else {
        let hi = (b / 16) as nat;
        let lo = (b % 16) as nat;
        assert(text[1] == hex_digit(hi));
        assert(text[2] == hex_digit(lo));
        assert(hex_value(hex_digit(hi)) == hi);
        assert(hex_value(hex_digit(lo)) == lo);
        assert(hi * 16 + lo == b) by (nonlinear_arith)
            requires
                hi == b / 16,
                lo == b % 16,
        ;
        assert(text.skip(3) =~= rest);
    }
}

/// What the header carries is printable ASCII with no space in it, whatever the IRI, and it
/// gives the IRI's bytes back exactly: the escaping can always be undone.
pub proof fn lemma_escaping_round_trips(bytes: Seq<u8>)
    ensures
        unescaped(escaped(bytes)) == bytes,
        forall|k: int|
            0 <= k < escaped(bytes).len() ==> 0x21 <= #[trigger] (escaped(bytes)[k] as int) <= 0x7e,
    decreases bytes.len(),
{
    if bytes.len() > 0 {
        let first = bytes[0];
        let rest = bytes.skip(1);
        assert(bytes =~= seq![first] + rest);
        lemma_escaped_concat(seq![first], rest);
        assert(escaped(seq![first]) =~= escaped_byte(first)) by {
            assert(seq![first].drop_last() =~= seq![]);
            assert(escaped(seq![first].drop_last()) =~= seq![]);
            assert(seq![] + escaped_byte(first) =~= escaped_byte(first));
        }
        lemma_escaping_round_trips(rest);
        lemma_escaped_byte(first, escaped(rest));
        assert forall|k: int| 0 <= k < escaped(bytes).len() implies 0x21 <= #[trigger] (
        escaped(bytes)[k] as int) <= 0x7e by {
            if k < escaped_byte(first).len() {
                assert(escaped(bytes)[k] == escaped_byte(first)[k]);
            } else {
                assert(escaped(bytes)[k] == escaped(rest)[k - escaped_byte(first).len()]);
            }
        }
    } else {
        assert(unescaped(seq![]) =~= seq![]);
    }
}

} // verus!

