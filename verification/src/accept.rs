//! Reading an `Accept` header: the media ranges it names, most preferred first.
//!
//! What is handled is exactly what is worth handling: comma-separated media ranges, `q=` weights,
//! and `*/*`. A weight is read as a single-precision float reads it; that reading is handed in, as
//! what it came to, because this library holds no floating-point value.

use vstd::multiset::Multiset;
use vstd::prelude::*;

use crate::text::push_char;

verus! {

/// The media range every syntax satisfies.
pub const ANYTHING: &'static str = "*/*";

/// `c` has the Unicode `White_Space` property, which is what `str::trim` removes.
pub open spec fn is_white(c: char) -> bool {
    ||| c == '\t' || c == '\n' || c == '\u{0B}' || c == '\u{0C}' || c == '\r' || c == ' '
    ||| c == '\u{85}' || c == '\u{A0}' || c == '\u{1680}'
    ||| ('\u{2000}' as int) <= (c as int) <= ('\u{200A}' as int)
    ||| c == '\u{2028}' || c == '\u{2029}' || c == '\u{202F}' || c == '\u{205F}' || c == '\u{3000}'
}

/// Whether `c` has the Unicode `White_Space` property.
pub fn white(c: char) -> (w: bool)
    ensures
        w == is_white(c),
{
    c == '\t' || c == '\n' || c == '\u{0B}' || c == '\u{0C}' || c == '\r' || c == ' ' || c
        == '\u{85}' || c == '\u{A0}' || c == '\u{1680}' || ('\u{2000}' <= c && c <= '\u{200A}')
        || c == '\u{2028}' || c == '\u{2029}' || c == '\u{202F}' || c == '\u{205F}' || c
        == '\u{3000}'
}

/// `s` without its leading white space.
pub open spec fn trim_start(s: Seq<char>) -> Seq<char>
    decreases s.len(),
{
    if s.len() > 0 && is_white(s[0]) {
        trim_start(s.drop_first())
    } else {
        s
    }
}

/// `s` without its trailing white space.
pub open spec fn trim_end(s: Seq<char>) -> Seq<char>
    decreases s.len(),
{
    if s.len() > 0 && is_white(s.last()) {
        trim_end(s.drop_last())
    } else {
        s
    }
}

/// `s` without white space at either end.
pub open spec fn trim(s: Seq<char>) -> Seq<char> {
    trim_end(trim_start(s))
}

/// The pieces of `s` between occurrences of `sep`: one more piece than there are separators,
/// empty pieces included.
pub open spec fn split_on(s: Seq<char>, sep: char) -> Seq<Seq<char>>
    decreases s.len(),
{
    if s.len() == 0 {
        seq![Seq::empty()]
    } else {
        let r = split_on(s.drop_last(), sep);
        if s.last() == sep {
            r.push(Seq::empty())
        } else {
            r.update(r.len() - 1, r.last().push(s.last()))
        }
    }
}

proof fn lemma_split_nonempty(s: Seq<char>, sep: char)
    ensures
        split_on(s, sep).len() >= 1,
    decreases s.len(),
{
    if s.len() > 0 {
        lemma_split_nonempty(s.drop_last(), sep);
    }
}

/// What reading a stated weight as a single-precision float came to: it does not read as a number;
/// it reads as one that is not above zero (zero, a negative number, or not a number); or it reads
/// as one above zero, given by the bit pattern of that float.
#[derive(Debug, Clone, Copy, PartialEq, Eq)]
pub enum Reading {
    /// It does not read as a number.
    Unreadable,
    /// It reads as a number that is not above zero.
    NotPositive,
    /// It reads as a number above zero, whose single-precision bit pattern this is.
    Positive(u32),
}

/// The bit pattern of the single-precision float 1.0: the weight of a range that states none, or
/// one whose stated weight does not read. Single-precision floats above zero, infinity included,
/// order as their bit patterns do.
pub const FULL_WEIGHT: u32 = 0x3F80_0000;

/// A weight as it ranks: the bit pattern of the single-precision float it reads as.
pub type WeightView = u32;

/// `a` is strictly less than `b`.
pub open spec fn weight_less(a: WeightView, b: WeightView) -> bool {
    a < b
}

/// The value that follows `q=` in the first parameter that has it, trimmed.
pub open spec fn q_value(params: Seq<Seq<char>>) -> Option<Seq<char>>
    decreases params.len(),
{
    if params.len() == 0 {
        None
    } else {
        let p = trim(params[0]);
        if p.len() >= 2 && p[0] == 'q' && p[1] == '=' {
            Some(trim(p.skip(2)))
        } else {
            q_value(params.drop_first())
        }
    }
}

/// The media range an entry names: what comes before its first `;`, trimmed.
pub open spec fn range_of(entry: Seq<char>) -> Seq<char> {
    trim(split_on(entry, ';')[0])
}

/// The weight an entry states: the value of its first `q=` parameter, trimmed, if it has one.
pub open spec fn weight_text(entry: Seq<char>) -> Option<Seq<char>> {
    q_value(split_on(entry, ';').drop_first())
}

/// What an entry weighs, given what its stated weight read as: full weight when it states none or
/// its weight does not read, nothing when its weight is not above zero, and otherwise the float it
/// read as.
pub open spec fn weight_key(text: Option<Seq<char>>, reading: Reading) -> Option<WeightView> {
    match text {
        None => Some(FULL_WEIGHT),
        Some(_) => match reading {
            Reading::Unreadable => Some(FULL_WEIGHT),
            Reading::NotPositive => None,
            Reading::Positive(bits) => Some(bits),
        },
    }
}

/// The entries of `accept` that name something: its comma-separated pieces, trimmed, without the
/// empty ones, in the order written.
pub open spec fn entries(pieces: Seq<Seq<char>>) -> Seq<Seq<char>>
    decreases pieces.len(),
{
    if pieces.len() == 0 {
        Seq::empty()
    } else if trim(pieces.last()).len() > 0 {
        entries(pieces.drop_last()).push(trim(pieces.last()))
    } else {
        entries(pieces.drop_last())
    }
}

/// The entries worth ranking, as range and weight: every entry whose weight, as `readings` (one
/// for each entry, in order) says it read, is above zero.
pub open spec fn weighed(entries: Seq<Seq<char>>, readings: Seq<Reading>) -> Seq<
    (Seq<char>, WeightView),
>
    decreases entries.len(),
{
    if entries.len() == 0 || readings.len() == 0 {
        Seq::empty()
    } else {
        let e = entries.last();
        let rest = weighed(entries.drop_last(), readings.drop_last());
        match weight_key(weight_text(e), readings.last()) {
            Some(w) => rest.push((range_of(e), w)),
            None => rest,
        }
    }
}

/// `x` placed into `sorted` after every entry that weighs at least as much.
pub open spec fn insert_by_weight(
    sorted: Seq<(Seq<char>, WeightView)>,
    x: (Seq<char>, WeightView),
) -> Seq<(Seq<char>, WeightView)>
    decreases sorted.len(),
{
    if sorted.len() == 0 {
        seq![x]
    } else if !weight_less(sorted[0].1, x.1) {
        seq![sorted[0]] + insert_by_weight(sorted.drop_first(), x)
    } else {
        seq![x] + sorted
    }
}

/// Heaviest first, and in the order written where weights tie: a stable sort.
pub open spec fn by_weight(s: Seq<(Seq<char>, WeightView)>) -> Seq<(Seq<char>, WeightView)>
    decreases s.len(),
{
    if s.len() == 0 {
        Seq::empty()
    } else {
        insert_by_weight(by_weight(s.drop_last()), s.last())
    }
}

/// The weight each entry of `accept` states, in order.
pub open spec fn weight_texts(accept: Seq<char>) -> Seq<Option<Seq<char>>> {
    entries(split_on(accept, ',')).map_values(|e: Seq<char>| weight_text(e))
}

/// The media ranges in `accept`, most preferred first, given what the weight each entry states
/// read as.
pub open spec fn preferred(accept: Seq<char>, readings: Seq<Reading>) -> Seq<Seq<char>> {
    by_weight(weighed(entries(split_on(accept, ',')), readings)).map_values(
        |x: (Seq<char>, WeightView)| x.0,
    )
}

/// The views of a list of character vectors.
pub open spec fn views(s: Seq<Vec<char>>) -> Seq<Seq<char>> {
    s.map_values(|v: Vec<char>| v@)
}

/// The characters of `s`.
pub fn chars_of(s: &str) -> (chars: Vec<char>)
    ensures
        chars@ == s@,
{
    let n = s.unicode_len();
    let mut out: Vec<char> = Vec::new();
    let mut i: usize = 0;
    while i < n
        invariant
            n == s@.len(),
            i <= n,
            out@ == s@.take(i as int),
        decreases n - i,
    {
        out.push(s.get_char(i));
        i = i + 1;
        proof {
            assert(out@ =~= s@.take(i as int));
        }
    }
    proof {
        assert(s@.take(n as int) =~= s@);
    }
    out
}

/// The characters of `s` from `from` up to `to`.
pub fn slice_chars(s: &Vec<char>, from: usize, to: usize) -> (part: Vec<char>)
    requires
        from <= to <= s@.len(),
    ensures
        part@ == s@.subrange(from as int, to as int),
{
    let mut out: Vec<char> = Vec::new();
    let mut i = from;
    while i < to
        invariant
            from <= i <= to,
            to <= s@.len(),
            out@ == s@.subrange(from as int, i as int),
        decreases to - i,
    {
        out.push(s[i]);
        i = i + 1;
        proof {
            assert(out@ =~= s@.subrange(from as int, i as int));
        }
    }
    out
}

/// `s` as a string.
pub fn string_of_chars(s: &Vec<char>) -> (text: String)
    ensures
        text@ == s@,
{
    let mut out = String::new();
    let mut i: usize = 0;
    while i < s.len()
        invariant
            i <= s@.len(),
            out@ == s@.take(i as int),
        decreases s@.len() - i,
    {
        push_char(&mut out, s[i]);
        i = i + 1;
        proof {
            assert(out@ =~= s@.take(i as int));
        }
    }
    proof {
        assert(s@.take(i as int) =~= s@);
    }
    out
}

proof fn lemma_trim_start(s: Seq<char>, a: int)
    requires
        0 <= a <= s.len(),
        forall|i: int| 0 <= i < a ==> is_white(#[trigger] s[i]),
        a < s.len() ==> !is_white(s[a]),
    ensures
        trim_start(s) == s.skip(a),
    decreases a,
{
    if a > 0 {
        let rest = s.drop_first();
        assert forall|i: int| 0 <= i < a - 1 implies is_white(#[trigger] rest[i]) by {
            assert(rest[i] == s[i + 1]);
        }
        lemma_trim_start(rest, a - 1);
        assert(rest.skip(a - 1) =~= s.skip(a));
    } else {
        assert(s.skip(0) =~= s);
    }
}

proof fn lemma_trim_end(s: Seq<char>, b: int)
    requires
        0 <= b <= s.len(),
        forall|i: int| b <= i < s.len() ==> is_white(#[trigger] s[i]),
        b > 0 ==> !is_white(s[b - 1]),
    ensures
        trim_end(s) == s.take(b),
    decreases s.len() - b,
{
    if b < s.len() {
        let rest = s.drop_last();
        assert forall|i: int| b <= i < rest.len() implies is_white(#[trigger] rest[i]) by {
            assert(rest[i] == s[i]);
        }
        lemma_trim_end(rest, b);
        assert(rest.take(b) =~= s.take(b));
    } else {
        assert(s.take(b) =~= s);
    }
}

/// `s` without white space at either end.
pub fn trimmed(s: &Vec<char>) -> (t: Vec<char>)
    ensures
        t@ == trim(s@),
{
    let n = s.len();
    let mut a: usize = 0;
    while a < n && white(s[a])
        invariant
            n == s@.len(),
            a <= n,
            forall|i: int| 0 <= i < a ==> is_white(#[trigger] s@[i]),
        decreases n - a,
    {
        a = a + 1;
    }
    proof {
        lemma_trim_start(s@, a as int);
    }
    let mut b: usize = n;
    while b > a && white(s[b - 1])
        invariant
            n == s@.len(),
            a <= b <= n,
            forall|i: int| b <= i < n ==> is_white(#[trigger] s@[i]),
        decreases b,
    {
        b = b - 1;
    }
    let ghost rest = s@.skip(a as int);
    proof {
        assert forall|i: int| b - a <= i < rest.len() implies is_white(#[trigger] rest[i]) by {
            assert(rest[i] == s@[a + i]);
        }
        if b > a {
            assert(rest[b - a - 1] == s@[b - 1]);
        }
        lemma_trim_end(rest, (b - a) as int);
        assert(rest.take((b - a) as int) =~= s@.subrange(a as int, b as int));
    }
    slice_chars(s, a, b)
}

/// The pieces of `s` between occurrences of `sep`.
pub fn split_chars(s: &Vec<char>, sep: char) -> (pieces: Vec<Vec<char>>)
    ensures
        views(pieces@) == split_on(s@, sep),
{
    let mut pieces: Vec<Vec<char>> = Vec::new();
    let mut current: Vec<char> = Vec::new();
    let mut i: usize = 0;
    proof {
        assert(s@.take(0) =~= Seq::<char>::empty());
        assert(views(pieces@).push(current@) =~= seq![Seq::<char>::empty()]);
    }
    while i < s.len()
        invariant
            i <= s@.len(),
            views(pieces@).push(current@) == split_on(s@.take(i as int), sep),
        decreases s@.len() - i,
    {
        let c = s[i];
        let ghost before = views(pieces@).push(current@);
        proof {
            assert(s@.take(i + 1).drop_last() =~= s@.take(i as int));
            assert(s@.take(i + 1).last() == c);
        }
        if c == sep {
            let done = current;
            pieces.push(done);
            current = Vec::new();
            proof {
                assert(views(pieces@).push(current@) =~= before.push(Seq::empty()));
            }
        } else {
            current.push(c);
            proof {
                assert(views(pieces@).push(current@) =~= before.update(
                    before.len() - 1,
                    before.last().push(c),
                ));
            }
        }
        i = i + 1;
    }
    proof {
        assert(s@.take(i as int) =~= s@);
    }
    pieces.push(current);
    proof {
        assert(views(pieces@) =~= split_on(s@, sep));
    }
    pieces
}

/// Whether a parameter is a weight: it begins `q=`.
fn names_weight(p: &Vec<char>) -> (q: bool)
    ensures
        q == (p@.len() >= 2 && p@[0] == 'q' && p@[1] == '='),
{
    p.len() >= 2 && p[0] == 'q' && p[1] == '='
}

/// One entry worth ranking: its media range and its weight.
pub struct Weighed {
    /// The media range.
    pub range: Vec<char>,
    /// Its weight.
    pub weight: u32,
}

impl View for Weighed {
    type V = (Seq<char>, WeightView);

    open spec fn view(&self) -> (Seq<char>, WeightView) {
        (self.range@, self.weight)
    }
}

/// The views of a list of weighed entries.
pub open spec fn weighed_views(s: Seq<Weighed>) -> Seq<(Seq<char>, WeightView)> {
    s.map_values(|w: Weighed| w@)
}

/// An entry's media range, and the weight it states.
fn split_entry(entry: &Vec<char>) -> (parts: (Vec<char>, Option<Vec<char>>))
    ensures
        parts.0@ == range_of(entry@),
        weight_text(entry@) == match parts.1 {
            Some(v) => Some(v@),
            None => None::<Seq<char>>,
        },
{
    let parts = split_chars(entry, ';');
    proof {
        lemma_split_nonempty(entry@, ';');
        assert(views(parts@)[0] == parts@[0]@);
    }
    let range = trimmed(&parts[0]);
    let ghost params = views(parts@).drop_first();
    let mut j: usize = 1;
    proof {
        assert(views(parts@).skip(1) =~= params);
    }
    while j < parts.len() && !names_weight(&trimmed(&parts[j]))
        invariant
            1 <= j <= parts@.len(),
            params == views(parts@).drop_first(),
            q_value(params) == q_value(views(parts@).skip(j as int)),
        decreases parts@.len() - j,
    {
        let ghost here = views(parts@).skip(j as int);
        proof {
            assert(here[0] == parts@[j as int]@);
            assert(here.drop_first() =~= views(parts@).skip(j + 1));
        }
        j = j + 1;
    }
    let found: Option<Vec<char>> = if j < parts.len() {
        let p = trimmed(&parts[j]);
        let n = p.len();
        let value = slice_chars(&p, 2, n);
        proof {
            let here = views(parts@).skip(j as int);
            assert(here[0] == parts@[j as int]@);
            assert(value@ =~= p@.skip(2));
        }
        Some(trimmed(&value))
    } else {
        proof {
            assert(views(parts@).skip(j as int) =~= Seq::<Seq<char>>::empty());
        }
        None
    };
        (range, found)
}

/// The weight an entry weighs, given what its stated weight read as.
fn key_of(stated: bool, reading: Reading) -> (key: Option<u32>)
    ensures
        key == weight_key(if stated { Some(Seq::<char>::empty()) } else { None }, reading),
{
    if !stated {
        return Some(FULL_WEIGHT);
    }
    match reading {
        Reading::Unreadable => Some(FULL_WEIGHT),
        Reading::NotPositive => None,
        Reading::Positive(bits) => Some(bits),
    }
}

/// The weight each entry of `accept` states, in the order the entries are written: the value of
/// its first `q=` parameter, trimmed, or nothing when it has none. An entry is a comma-separated
/// piece that is not blank.
pub fn weights(accept: &str) -> (texts: Vec<Option<String>>)
    ensures
        texts@.len() == weight_texts(accept@).len(),
        forall|i: int|
            0 <= i < texts@.len() ==> weight_texts(accept@)[i] == match #[trigger] texts@[i] {
                Some(t) => Some(t@),
                None => None::<Seq<char>>,
            },
{
    let chars = chars_of(accept);
    let pieces = split_chars(&chars, ',');
    let ghost all_pieces = views(pieces@);
    let mut texts: Vec<Option<String>> = Vec::new();
    let mut i: usize = 0;
    while i < pieces.len()
        invariant
            i <= pieces@.len(),
            all_pieces == views(pieces@),
            texts@.len() == entries(all_pieces.take(i as int)).len(),
            forall|k: int|
                0 <= k < texts@.len() ==> weight_text(entries(all_pieces.take(i as int))[k])
                    == match #[trigger] texts@[k] {
                    Some(t) => Some(t@),
                    None => None::<Seq<char>>,
                },
        decreases pieces@.len() - i,
    {
        let entry = trimmed(&pieces[i]);
        proof {
            assert(all_pieces.take(i + 1).drop_last() =~= all_pieces.take(i as int));
            assert(all_pieces.take(i + 1).last() == pieces@[i as int]@);
        }
        let ghost prior = entries(all_pieces.take(i as int));
        if entry.len() > 0 {
            proof {
                assert(entries(all_pieces.take(i + 1)) == prior.push(entry@));
            }
            let (_, found) = split_entry(&entry);
            let text = match found {
                Some(v) => Some(string_of_chars(&v)),
                None => None,
            };
            texts.push(text);
            proof {
                assert forall|k: int| 0 <= k < texts@.len() implies weight_text(
                    entries(all_pieces.take(i + 1))[k],
                ) == match #[trigger] texts@[k] {
                    Some(t) => Some(t@),
                    None => None::<Seq<char>>,
                } by {
                    if k < prior.len() {
                        assert(entries(all_pieces.take(i + 1))[k] == prior[k]);
                    }
                }
            }
        } else {
            proof {
                assert(entries(all_pieces.take(i + 1)) == prior);
            }
        }
        i = i + 1;
    }
    proof {
        assert(all_pieces.take(i as int) =~= all_pieces);
    }
    texts
}

/// The media ranges in `accept`, most preferred first, given in `readings` what the weight each
/// entry states (see [`weights`]) read as, as a single-precision float, one reading for each entry
/// in order.
///
/// Sorted descending by weight, and by the order written where weights tie: two weights that read
/// as the same float tie. Entries whose weight is not above zero are dropped: that is the client
/// saying "not this". An entry that states no weight, or one whose weight does not read, has full
/// weight. An empty result means the header expressed no usable preference.
pub fn preferences(accept: &str, readings: &Vec<Reading>) -> (ranges: Vec<String>)
    requires
        readings@.len() == weight_texts(accept@).len(),
    ensures
        ranges@.len() == preferred(accept@, readings@).len(),
        forall|i: int|
            0 <= i < ranges@.len() ==> (#[trigger] ranges@[i])@ == preferred(accept@, readings@)[i],
{
    let chars = chars_of(accept);
    let pieces = split_chars(&chars, ',');
    let ghost all_pieces = views(pieces@);
    // The entries that name something, weighed.
    let mut kept: Vec<Weighed> = Vec::new();
    let mut i: usize = 0;
    let mut n: usize = 0;
    let available = readings.len();
    proof {
        assert(all_pieces == split_on(accept@, ',')) by {
            assert(views(pieces@) =~= split_on(chars@, ','));
        }
    }
    while i < pieces.len()
        invariant
            i <= pieces@.len(),
            all_pieces == views(pieces@),
            all_pieces == split_on(accept@, ','),
            readings@.len() == entries(all_pieces).len(),
            n == entries(all_pieces.take(i as int)).len(),
            n <= readings@.len(),
            available == readings@.len(),
            weighed_views(kept@) == weighed(
                entries(all_pieces.take(i as int)),
                readings@.take(n as int),
            ),
        decreases pieces@.len() - i,
    {
        let entry = trimmed(&pieces[i]);
        let ghost before = weighed_views(kept@);
        proof {
            assert(all_pieces.take(i + 1).drop_last() =~= all_pieces.take(i as int));
            assert(all_pieces.take(i + 1).last() == pieces@[i as int]@);
        }
        let ghost prior = entries(all_pieces.take(i as int));
        if entry.len() > 0 {
            proof {
                assert(entries(all_pieces.take(i + 1)) == prior.push(entry@));
                assert(prior.push(entry@).drop_last() =~= prior);
            }
            proof {
                lemma_entries_prefix(all_pieces, i + 1);
                assert(readings@.take(n + 1).drop_last() =~= readings@.take(n as int));
                assert(readings@.take(n + 1).last() == readings@[n as int]);
            }
            assert(n < available);
            let (range, found) = split_entry(&entry);
            let key = key_of(found.is_some(), readings[n]);
            match key {
                Some(weight) => {
                    kept.push(Weighed { range, weight });
                    proof {
                        assert(weighed_views(kept@) =~= before.push((range_of(entry@), weight)));
                    }
                },
                None => {},
            }
            n = n + 1;
        } else {
            proof {
                assert(entries(all_pieces.take(i + 1)) == prior);
            }
        }
        i = i + 1;
    }
    proof {
        assert(all_pieces.take(i as int) =~= all_pieces);
        assert(readings@.take(n as int) =~= readings@);
    }
    // A stable insertion sort, heaviest first.
    let ghost given = weighed_views(kept@);
    let mut rest = kept;
    let mut sorted: Vec<Weighed> = Vec::new();
    let mut done: usize = 0;
    let total = rest.len();
    while rest.len() > 0
        invariant
            total == given.len(),
            done + rest@.len() == given.len(),
            weighed_views(rest@) == given.skip(done as int),
            weighed_views(sorted@) == by_weight(given.take(done as int)),
        decreases rest@.len(),
    {
        let ghost old_rest = rest@;
        let x = rest.remove(0);
        proof {
            assert(weighed_views(old_rest)[0] == old_rest[0]@);
            assert(x@ == given[done as int]);
            assert forall|k: int| 0 <= k < rest@.len() implies #[trigger] weighed_views(rest@)[k]
                == given.skip(done + 1)[k] by {
                assert(rest@[k] == old_rest[k + 1]);
                assert(weighed_views(old_rest)[k + 1] == old_rest[k + 1]@);
            }
            assert(weighed_views(rest@) =~= given.skip(done + 1));
        }
        let ghost before = weighed_views(sorted@);
        let mut p: usize = 0;
        while p < sorted.len() && !(sorted[p].weight < x.weight)
            invariant
                p <= sorted@.len(),
                weighed_views(sorted@) == before,
                forall|k: int| 0 <= k < p ==> !weight_less(#[trigger] before[k].1, x@.1),
            decreases sorted@.len() - p,
        {
            p = p + 1;
        }
        proof {
            lemma_insert_by_weight_splices(before, x@, p as int);
            assert(given.take(done + 1).drop_last() =~= given.take(done as int));
            assert(given.take(done + 1).last() == x@);
        }
        sorted.insert(p, x);
        proof {
            assert(weighed_views(sorted@) =~= before.take(p as int) + seq![x@] + before.skip(
                p as int,
            ));
        }
        done = done + 1;
    }
    proof {
        assert(given.take(done as int) =~= given);
    }
    let mut out: Vec<String> = Vec::new();
    let mut k: usize = 0;
    while k < sorted.len()
        invariant
            k <= sorted@.len(),
            weighed_views(sorted@) == by_weight(given),
            given == weighed(entries(split_on(accept@, ',')), readings@),
            out@.len() == k,
            forall|m: int| 0 <= m < k ==> (#[trigger] out@[m])@ == preferred(accept@, readings@)[m],
        decreases sorted@.len() - k,
    {
        let text = string_of_chars(&sorted[k].range);
        proof {
            assert(weighed_views(sorted@)[k as int] == sorted@[k as int]@);
        }
        out.push(text);
        k = k + 1;
    }
    out
}

proof fn lemma_insert_by_weight_splices(
    sorted: Seq<(Seq<char>, WeightView)>,
    x: (Seq<char>, WeightView),
    p: int,
)
    requires
        0 <= p <= sorted.len(),
        forall|k: int| 0 <= k < p ==> !weight_less(#[trigger] sorted[k].1, x.1),
        p < sorted.len() ==> weight_less(sorted[p].1, x.1),
    ensures
        insert_by_weight(sorted, x) == sorted.take(p) + seq![x] + sorted.skip(p),
    decreases sorted.len(),
{
    if sorted.len() == 0 {
        assert(sorted.take(p) + seq![x] + sorted.skip(p) =~= seq![x]);
    } else if p == 0 {
        assert(sorted.take(p) + seq![x] + sorted.skip(p) =~= seq![x] + sorted);
    } else {
        let rest = sorted.drop_first();
        assert forall|k: int| 0 <= k < p - 1 implies !weight_less(#[trigger] rest[k].1, x.1) by {
            assert(rest[k] == sorted[k + 1]);
        }
        lemma_insert_by_weight_splices(rest, x, p - 1);
        assert(sorted.take(p) + seq![x] + sorted.skip(p) =~= seq![sorted[0]] + (rest.take(p - 1)
            + seq![x] + rest.skip(p - 1)));
    }
}

broadcast use vstd::seq_lib::group_to_multiset_ensures;

/// A ranked range: the media range and its weight.
pub type Ranked = (Seq<char>, WeightView);

/// Every entry weighs at least as much as every entry after it.
pub open spec fn heaviest_first(s: Seq<Ranked>) -> bool {
    forall|i: int, j: int| 0 <= i < j < s.len() ==> !weight_less(#[trigger] s[i].1, #[trigger] s[j].1)
}

/// Neither weight is less than the other: they tie.
pub open spec fn same_weight(a: WeightView, b: WeightView) -> bool {
    !weight_less(a, b) && !weight_less(b, a)
}

/// The entries of `s` that tie with `w`, in the order they stand in `s`.
pub open spec fn tied_with(s: Seq<Ranked>, w: WeightView) -> Seq<Ranked>
    decreases s.len(),
{
    if s.len() == 0 {
        Seq::empty()
    } else {
        (if same_weight(s[0].1, w) {
            seq![s[0]]
        } else {
            Seq::empty()
        }) + tied_with(s.drop_first(), w)
    }
}

/// Weights are ordered as numbers are: never both less than each other, never less than
/// themselves, and "no lighter than" is transitive.
proof fn lemma_weight_order(a: WeightView, b: WeightView, c: WeightView)
    ensures
        !(weight_less(a, b) && weight_less(b, a)),
        !weight_less(a, a),
        !weight_less(a, b) && !weight_less(b, c) ==> !weight_less(a, c),
{
}

proof fn lemma_tied_with_push(s: Seq<Ranked>, x: Ranked, w: WeightView)
    ensures
        tied_with(s.push(x), w) == tied_with(s, w) + (if same_weight(x.1, w) {
            seq![x]
        } else {
            Seq::empty()
        }),
    decreases s.len(),
{
    if s.len() == 0 {
        assert(s.push(x) =~= seq![x]);
        assert(seq![x].drop_first() =~= Seq::<Ranked>::empty());
        assert(tied_with(Seq::<Ranked>::empty(), w) =~= Seq::<Ranked>::empty());
    } else {
        lemma_tied_with_push(s.drop_first(), x, w);
        assert(s.push(x).drop_first() =~= s.drop_first().push(x));
        assert(s.push(x)[0] == s[0]);
    }
}

/// Nothing in `s` ties with a weight every entry of `s` is lighter than.
proof fn lemma_none_tied(s: Seq<Ranked>, x: WeightView, w: WeightView)
    requires
        forall|i: int| 0 <= i < s.len() ==> weight_less(#[trigger] s[i].1, x),
        same_weight(x, w),
    ensures
        tied_with(s, w) == Seq::<Ranked>::empty(),
    decreases s.len(),
{
    if s.len() > 0 {
        lemma_weight_order(s[0].1, w, x);
        assert forall|i: int| 0 <= i < s.drop_first().len() implies weight_less(
            #[trigger] s.drop_first()[i].1,
            x,
        ) by {
            assert(s.drop_first()[i] == s[i + 1]);
        }
        lemma_none_tied(s.drop_first(), x, w);
        assert(Seq::<Ranked>::empty() + Seq::<Ranked>::empty() =~= Seq::<Ranked>::empty());
    }
}

/// Inserting into a list that is heaviest first keeps it so, adds exactly the one entry, and
/// places it after everything it ties with.
proof fn lemma_insert_by_weight(sorted: Seq<Ranked>, x: Ranked)
    requires
        heaviest_first(sorted),
    ensures
        heaviest_first(insert_by_weight(sorted, x)),
        insert_by_weight(sorted, x).to_multiset() == sorted.to_multiset().insert(x),
        forall|w: WeightView|
            #[trigger] tied_with(insert_by_weight(sorted, x), w) == tied_with(sorted, w) + (if same_weight(
                x.1,
                w,
            ) {
                seq![x]
            } else {
                Seq::empty()
            }),
    decreases sorted.len(),
{
    let xs = seq![x];
    let result = insert_by_weight(sorted, x);
    if sorted.len() == 0 {
        assert(result =~= xs);
        assert(xs =~= Seq::<Ranked>::empty().push(x));
        assert forall|w: WeightView| #[trigger] tied_with(result, w) == tied_with(sorted, w) + (
        if same_weight(x.1, w) {
            xs
        } else {
            Seq::empty()
        }) by {
            lemma_tied_with_push(Seq::<Ranked>::empty(), x, w);
        }
    } else if !weight_less(sorted[0].1, x.1) {
        let first = sorted[0];
        let rest = sorted.drop_first();
        assert forall|i: int, j: int| 0 <= i < j < rest.len() implies !weight_less(
            #[trigger] rest[i].1,
            #[trigger] rest[j].1,
        ) by {
            assert(rest[i] == sorted[i + 1] && rest[j] == sorted[j + 1]);
        }
        lemma_insert_by_weight(rest, x);
        let tail = insert_by_weight(rest, x);
        assert(result == seq![first] + tail);
        assert forall|j: int| 0 <= j < tail.len() implies !weight_less(
            first.1,
            #[trigger] tail[j].1,
        ) by {
            assert(tail.to_multiset().contains(tail[j]));
            assert(rest.to_multiset().insert(x).contains(tail[j]));
            if tail[j] != x {
                assert(rest.to_multiset().contains(tail[j]));
                let k = choose|k: int| 0 <= k < rest.len() && rest[k] == tail[j];
                assert(sorted[k + 1] == rest[k]);
            }
        }
        assert forall|i: int, j: int| 0 <= i < j < result.len() implies !weight_less(
            #[trigger] result[i].1,
            #[trigger] result[j].1,
        ) by {
            if i == 0 {
                assert(result[j] == tail[j - 1]);
            } else {
                assert(result[i] == tail[i - 1] && result[j] == tail[j - 1]);
            }
        }
        assert(sorted =~= seq![first] + rest);
        vstd::seq_lib::lemma_multiset_commutative(seq![first], rest);
        vstd::seq_lib::lemma_multiset_commutative(seq![first], tail);
        assert(seq![first] =~= Seq::<Ranked>::empty().push(first));
        assert(seq![first].to_multiset() =~= Multiset::empty().insert(first));
        assert(result.to_multiset() =~= sorted.to_multiset().insert(x));
        assert forall|w: WeightView| #[trigger] tied_with(result, w) == tied_with(sorted, w) + (
        if same_weight(x.1, w) {
            xs
        } else {
            Seq::empty()
        }) by {
            assert(result.drop_first() =~= tail);
            assert(result[0] == first);
            let head = if same_weight(first.1, w) {
                seq![first]
            } else {
                Seq::<Ranked>::empty()
            };
            let more = if same_weight(x.1, w) {
                xs
            } else {
                Seq::<Ranked>::empty()
            };
            assert(tied_with(insert_by_weight(rest, x), w) == tied_with(rest, w) + more);
            assert(tied_with(result, w) == head + tied_with(tail, w));
            assert(tied_with(sorted, w) == head + tied_with(rest, w));
            assert(head + (tied_with(rest, w) + more) =~= head + tied_with(rest, w) + more);
        }
    } else {
        let whole = seq![x] + sorted;
        assert(result == whole);
        lemma_weight_order(sorted[0].1, x.1, x.1);
        assert forall|i: int| 0 <= i < sorted.len() implies weight_less(#[trigger] sorted[i].1, x.1) by {
            if i > 0 {
                lemma_weight_order(sorted[0].1, sorted[i].1, x.1);
                lemma_weight_order(sorted[i].1, x.1, sorted[0].1);
            }
        }
        assert forall|i: int, j: int| 0 <= i < j < whole.len() implies !weight_less(
            #[trigger] whole[i].1,
            #[trigger] whole[j].1,
        ) by {
            if i == 0 {
                assert(whole[j] == sorted[j - 1]);
                lemma_weight_order(sorted[j - 1].1, x.1, x.1);
            } else {
                assert(whole[i] == sorted[i - 1] && whole[j] == sorted[j - 1]);
            }
        }
        vstd::seq_lib::lemma_multiset_commutative(seq![x], sorted);
        assert(xs =~= Seq::<Ranked>::empty().push(x));
        assert(xs.to_multiset() =~= Multiset::empty().insert(x));
        assert(whole.to_multiset() =~= sorted.to_multiset().insert(x));
        assert forall|w: WeightView| #[trigger] tied_with(result, w) == tied_with(sorted, w) + (
        if same_weight(x.1, w) {
            xs
        } else {
            Seq::empty()
        }) by {
            assert(whole.drop_first() =~= sorted);
            assert(whole[0] == x);
            if same_weight(x.1, w) {
                lemma_none_tied(sorted, x.1, w);
                assert(xs + Seq::<Ranked>::empty() =~= Seq::<Ranked>::empty() + xs);
            } else {
                assert(Seq::<Ranked>::empty() + tied_with(sorted, w) =~= tied_with(sorted, w)
                    + Seq::<Ranked>::empty());
            }
        }
    }
}

/// Sorting by weight puts the heaviest first, keeps exactly the entries it was given, and keeps
/// the entries of equal weight in the order they were given: it is a stable sort.
proof fn lemma_by_weight(s: Seq<Ranked>)
    ensures
        heaviest_first(by_weight(s)),
        by_weight(s).to_multiset() == s.to_multiset(),
        forall|w: WeightView| #[trigger] tied_with(by_weight(s), w) == tied_with(s, w),
    decreases s.len(),
{
    if s.len() == 0 {
        assert(by_weight(s).to_multiset() =~= Multiset::empty());
        assert(s.to_multiset() =~= Multiset::empty());
        assert forall|w: WeightView| #[trigger] tied_with(by_weight(s), w) == tied_with(s, w) by {
            assert(by_weight(s) =~= s);
        }
    } else {
        let front = s.drop_last();
        lemma_by_weight(front);
        lemma_insert_by_weight(by_weight(front), s.last());
        assert(s =~= front.push(s.last()));
        assert forall|w: WeightView| #[trigger] tied_with(by_weight(s), w) == tied_with(s, w) by {
            lemma_tied_with_push(front, s.last(), w);
            assert(tied_with(by_weight(front), w) == tied_with(front, w));
        }
    }
}

/// Counting the entries of the first `i` pieces, then one more piece.
proof fn lemma_entries_prefix(pieces: Seq<Seq<char>>, i: int)
    requires
        0 < i <= pieces.len(),
    ensures
        entries(pieces.take(i - 1)).len() <= entries(pieces.take(i)).len() <= entries(pieces).len(),
    decreases pieces.len() - i,
{
    assert(pieces.take(i).drop_last() =~= pieces.take(i - 1));
    if i < pieces.len() {
        lemma_entries_prefix(pieces, i + 1);
    } else {
        assert(pieces.take(i) =~= pieces);
    }
}

/// **How an `Accept` header is ranked.** The ranges come back heaviest first; every entry whose
/// weight is above zero comes back, as often as it was written, and no other; and ranges of equal
/// weight, weights that read as the same float, come back in the order they were written.
pub proof fn lemma_preferences_are_ranked(accept: Seq<char>, readings: Seq<Reading>)
    ensures
        ({
            let given = weighed(entries(split_on(accept, ',')), readings);
            let ranked = by_weight(given);
            &&& preferred(accept, readings).len() == ranked.len()
            &&& forall|i: int|
                0 <= i < ranked.len() ==> preferred(accept, readings)[i] == #[trigger] ranked[i].0
            &&& heaviest_first(ranked)
            &&& ranked.to_multiset() == given.to_multiset()
            &&& forall|w: WeightView| #[trigger] tied_with(ranked, w) == tied_with(given, w)
        }),
{
    lemma_by_weight(weighed(entries(split_on(accept, ',')), readings));
}

} // verus!

