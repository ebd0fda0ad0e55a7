//! The SKOS values discovery reads: resources, labels, the kind a label is held under, and how a
//! label matched a query. Each is ordered the way a discovery report ranks.

use vstd::prelude::*;

use crate::text::{decimal, push_count, push_str, same_text};

verus! {

/// A resource: an IRI, or a blank node local to one graph.
#[derive(Debug, Clone, PartialEq, Eq, Hash)]
pub enum Node {
    /// A resource named by an IRI.
    Iri(String),
    /// A blank node, by its label.
    Blank(String),
}

/// Where a node's variant ranks: IRIs before blank nodes.
pub open spec fn node_variant_rank(n: Node) -> int {
    match n {
        Node::Iri(_) => 0,
        Node::Blank(_) => 1,
    }
}

/// The text that names a node within its variant.
pub open spec fn node_text(n: Node) -> Seq<char> {
    match n {
        Node::Iri(s) => s@,
        Node::Blank(s) => s@,
    }
}

/// `a` sorts strictly before `b`, comparing character by character by code point, a proper
/// prefix first.
pub open spec fn text_lt(a: Seq<char>, b: Seq<char>) -> bool
    decreases a.len(),
{
    if b.len() == 0 {
        false
    } else if a.len() == 0 {
        true
    } else if (a[0] as int) < (b[0] as int) {
        true
    } else if a[0] == b[0] {
        text_lt(a.drop_first(), b.drop_first())
    } else {
        false
    }
}

/// `a` sorts no later than `b`.
pub open spec fn text_le(a: Seq<char>, b: Seq<char>) -> bool {
    text_lt(a, b) || a == b
}

/// `a` sorts strictly before `b`: IRIs first, then by their text.
pub open spec fn node_lt(a: Node, b: Node) -> bool {
    node_variant_rank(a) < node_variant_rank(b) || (node_variant_rank(a) == node_variant_rank(b)
        && text_lt(node_text(a), node_text(b)))
}

/// The order on texts is a strict total order.
pub proof fn lemma_text_lt_trichotomy(a: Seq<char>, b: Seq<char>)
    ensures
        text_lt(a, b) || a == b || text_lt(b, a),
        !(text_lt(a, b) && text_lt(b, a)),
        !(text_lt(a, b) && a == b),
    decreases a.len(),
{
    if a.len() > 0 && b.len() > 0 && a[0] == b[0] {
        lemma_text_lt_trichotomy(a.drop_first(), b.drop_first());
        if a.drop_first() == b.drop_first() {
            assert(a =~= seq![a[0]] + a.drop_first());
            assert(b =~= seq![b[0]] + b.drop_first());
        }
    }
    if a.len() == 0 && b.len() == 0 {
        assert(a =~= b);
    }
    if a.len() > 0 && b.len() > 0 && a[0] != b[0] {
        assert((a[0] as int) != (b[0] as int));
    }
}

/// The order on texts is transitive.
pub proof fn lemma_text_lt_transitive(a: Seq<char>, b: Seq<char>, c: Seq<char>)
    requires
        text_lt(a, b),
        text_lt(b, c),
    ensures
        text_lt(a, c),
    decreases a.len(),
{
    if a.len() > 0 && a[0] == b[0] && b[0] == c[0] {
        lemma_text_lt_transitive(a.drop_first(), b.drop_first(), c.drop_first());
    }
}

/// `a` sorts strictly before `b`, computed character by character.
pub fn text_less(a: &str, b: &str) -> (less: bool)
    ensures
        less == text_lt(a@, b@),
{
    let a_len = a.unicode_len();
    let b_len = b.unicode_len();
    let mut i: usize = 0;
    assert(a@.skip(0) =~= a@);
    assert(b@.skip(0) =~= b@);
    while i < a_len && i < b_len
        invariant
            a_len == a@.len(),
            b_len == b@.len(),
            i <= a_len,
            i <= b_len,
            a@.subrange(0, i as int) == b@.subrange(0, i as int),
            text_lt(a@, b@) == text_lt(a@.skip(i as int), b@.skip(i as int)),
        decreases a_len - i,
    {
        let x = a.get_char(i);
        let y = b.get_char(i);
        assert(a@.skip(i as int)[0] == x);
        assert(b@.skip(i as int)[0] == y);
        if (x as u32) < (y as u32) {
            return true;
        }
        if x != y {
            return false;
        }
        assert(a@.skip(i as int).drop_first() =~= a@.skip(i + 1));
        assert(b@.skip(i as int).drop_first() =~= b@.skip(i + 1));
        assert(a@.subrange(0, i + 1) =~= a@.subrange(0, i as int).push(x));
        assert(b@.subrange(0, i + 1) =~= b@.subrange(0, i as int).push(y));
        i = i + 1;
    }
    i < b_len
}

impl Node {
    /// A node named by `iri`.
    pub fn iri(iri: &str) -> (node: Node)
        ensures
            node is Iri,
            node_text(node) == iri@,
    {
        Node::Iri(iri.to_owned())
    }

    /// A blank node labelled `label`.
    pub fn blank(label: &str) -> (node: Node)
        ensures
            node is Blank,
            node_text(node) == label@,
    {
        Node::Blank(label.to_owned())
    }

    /// The IRI, when this node has one.
    pub fn as_iri(&self) -> (iri: Option<&str>)
        ensures
            iri is Some <==> self is Iri,
            iri matches Some(text) ==> text@ == node_text(*self),
    {
        match self {
            Node::Iri(text) => Some(text.as_str()),
            Node::Blank(_) => None,
        }
    }

    /// The node as it is written in N-Triples: `<iri>` or `_:label`.
    pub fn to_string(&self) -> (written: String)
        ensures
            written@ == node_written(*self),
    {
        let mut out = String::new();
        match self {
            Node::Iri(text) => {
                push_str(&mut out, "<");
                push_str(&mut out, text.as_str());
                push_str(&mut out, ">");
            },
            Node::Blank(text) => {
                push_str(&mut out, "_:");
                push_str(&mut out, text.as_str());
            },
        }
        out
    }

    /// This node and `other` are the same resource: the same variant, named by the same text.
    pub fn same_as(&self, other: &Node) -> (same: bool)
        ensures
            same == node_same(*self, *other),
    {
        match (self, other) {
            (Node::Iri(a), Node::Iri(b)) => same_text(a.as_str(), b.as_str()),
            (Node::Blank(a), Node::Blank(b)) => same_text(a.as_str(), b.as_str()),
            _ => false,
        }
    }

    /// This node sorts strictly before `other`.
    pub fn sorts_before(&self, other: &Node) -> (before: bool)
        ensures
            before == node_lt(*self, *other),
    {
        match (self, other) {
            (Node::Iri(_), Node::Blank(_)) => true,
            (Node::Blank(_), Node::Iri(_)) => false,
            (Node::Iri(a), Node::Iri(b)) => text_less(a.as_str(), b.as_str()),
            (Node::Blank(a), Node::Blank(b)) => text_less(a.as_str(), b.as_str()),
        }
    }
}

/// `a` and `b` are the same resource: the same variant, named by the same text.
pub open spec fn node_same(a: Node, b: Node) -> bool {
    node_variant_rank(a) == node_variant_rank(b) && node_text(a) == node_text(b)
}

/// A node as N-Triples writes it.
pub open spec fn node_written(n: Node) -> Seq<char> {
    match n {
        Node::Iri(s) => "<"@ + s@ + ">"@,
        Node::Blank(s) => "_:"@ + s@,
    }
}

/// A resource a report names, with the label it is displayed by, when it has one.
#[derive(Debug, Clone, PartialEq, Eq)]
pub struct Named {
    /// The resource.
    pub node: Node,
    /// Its display label.
    pub label: Option<String>,
}

/// A display label in parentheses after one space, or nothing.
pub open spec fn named_suffix(label: Option<String>) -> Seq<char> {
    match label {
        Some(text) => " ("@ + text@ + ")"@,
        None => Seq::empty(),
    }
}

/// One named resource on a line of its own, indented under its heading.
pub open spec fn member_line(item: Named) -> Seq<char> {
    "    "@ + node_written(item.node) + named_suffix(item.label) + "\n"@
}

/// Each of `items` on a line of its own, in order.
pub open spec fn member_lines(items: Seq<Named>) -> Seq<char>
    decreases items.len(),
{
    if items.len() == 0 {
        Seq::empty()
    } else {
        member_lines(items.drop_last()) + member_line(items.last())
    }
}

/// A named resource as a report writes it: the node, then its label in parentheses after `gap`
/// when it has one.
pub open spec fn named_text(item: Named, gap: Seq<char>) -> Seq<char> {
    node_written(item.node) + match item.label {
        Some(text) => gap + "("@ + text@ + ")"@,
        None => Seq::empty(),
    }
}

/// Appends `item` as a report writes it, its label after `gap`.
pub fn push_named(out: &mut String, item: &Named, gap: &str)
    ensures
        final(out)@ == old(out)@ + named_text(*item, gap@),
{
    let written = item.node.to_string();
    push_str(out, written.as_str());
    match &item.label {
        Some(text) => {
            push_str(out, gap);
            push_str(out, "(");
            push_str(out, text.as_str());
            push_str(out, ")");
        },
        None => {},
    }
    assert(out@ =~= old(out)@ + named_text(*item, gap@));
}

/// The first five of `items`, one to a line, then how many more there are.
pub open spec fn first_five_text(items: Seq<Named>) -> Seq<char> {
    let n = items.len();
    member_lines(items.take(if n > 5 { 5 } else { n as int })) + if n > 5 {
        "    and "@ + decimal((n - 5) as nat) + " more\n"@
    } else {
        Seq::empty()
    }
}

/// Appends the first `count` of `items`, one to a line.
pub fn push_members(out: &mut String, items: &Vec<Named>, count: usize)
    requires
        count <= items@.len(),
    ensures
        final(out)@ == old(out)@ + member_lines(items@.take(count as int)),
{
    let mut i: usize = 0;
    while i < count
        invariant
            count <= items@.len(),
            i <= count,
            out@ == old(out)@ + member_lines(items@.take(i as int)),
        decreases count - i,
    {
        let ghost before = out@;
        let item = &items[i];
        push_str(out, "    ");
        let written = item.node.to_string();
        push_str(out, written.as_str());
        match &item.label {
            Some(text) => {
                push_str(out, " (");
                push_str(out, text.as_str());
                push_str(out, ")");
            },
            None => {},
        }
        push_str(out, "\n");
        proof {
            let next = items@.take(i + 1 as int);
            assert(next.drop_last() =~= items@.take(i as int));
            assert(next.last() == items@[i as int]);
            assert(out@ =~= before + member_line(items@[i as int]));
        }
        i = i + 1;
    }
}

/// Appends the first five of `items`, one to a line, then how many more there are.
pub fn push_first_five(out: &mut String, items: &Vec<Named>)
    ensures
        final(out)@ == old(out)@ + first_five_text(items@),
{
    let n = items.len();
    let shown: usize = if n > 5 { 5 } else { n };
    push_members(out, items, shown);
    if n > 5 {
        push_str(out, "    and ");
        push_count(out, n - 5);
        push_str(out, " more\n");
    }
    assert(out@ =~= old(out)@ + first_five_text(items@));
}

/// A label: its text and its language tag, if it has one.
#[derive(Debug, Clone, PartialEq, Eq, Hash)]
pub struct LexicalLabel {
    /// The language tag, if the label has one.
    pub language: Option<String>,
    /// The label's text.
    pub text: String,
}

/// The SKOS property a label is held under.
#[derive(Debug, Clone, Copy, PartialEq, Eq, Hash)]
pub enum LabelKind {
    /// `skos:prefLabel`.
    Preferred,
    /// `skos:altLabel`.
    Alternative,
    /// `skos:hiddenLabel`.
    Hidden,
}

/// How much of a label a query matched.
#[derive(Debug, Clone, Copy, PartialEq, Eq, Hash)]
pub enum MatchQuality {
    /// The whole label.
    Exact,
    /// Its beginning.
    Prefix,
    /// Somewhere inside it.
    Contains,
}

/// Where a match quality ranks: the whole label first.
pub open spec fn quality_rank(q: MatchQuality) -> int {
    match q {
        MatchQuality::Exact => 0,
        MatchQuality::Prefix => 1,
        MatchQuality::Contains => 2,
    }
}

/// Where a label kind ranks: no kind first, then preferred, alternative, hidden.
pub open spec fn kind_rank(k: Option<LabelKind>) -> int {
    match k {
        None => 0,
        Some(LabelKind::Preferred) => 1,
        Some(LabelKind::Alternative) => 2,
        Some(LabelKind::Hidden) => 3,
    }
}

/// The rank of a match quality, computed.
pub fn quality_rank_of(q: MatchQuality) -> (rank: u8)
    ensures
        rank == quality_rank(q),
{
    match q {
        MatchQuality::Exact => 0,
        MatchQuality::Prefix => 1,
        MatchQuality::Contains => 2,
    }
}

/// The rank of a label kind, computed.
pub fn kind_rank_of(k: Option<LabelKind>) -> (rank: u8)
    ensures
        rank == kind_rank(k),
{
    match k {
        None => 0,
        Some(LabelKind::Preferred) => 1,
        Some(LabelKind::Alternative) => 2,
        Some(LabelKind::Hidden) => 3,
    }
}

/// A query for labels: the text to look for, which is never empty.
#[derive(Debug, Clone, PartialEq, Eq)]
pub struct LabelQuery {
    text: String,
}

/// Why a label query could not be built.
#[derive(Debug, Clone, Copy, PartialEq, Eq)]
pub struct EmptyQuery;

impl LabelQuery {
    /// The text this query looks for.
    pub closed spec fn spec_text(&self) -> Seq<char> {
        self.text@
    }

    /// A query for `text`, refused when `text` is empty: an empty query matches every label.
    pub fn new(text: &str) -> (query: Result<LabelQuery, EmptyQuery>)
        ensures
            query is Ok <==> text@.len() > 0,
            query matches Ok(q) ==> q.spec_text() == text@,
    {
        if text.unicode_len() == 0 {
            Err(EmptyQuery)
        } else {
            Ok(LabelQuery { text: text.to_owned() })
        }
    }

    /// A query for the same text.
    pub fn duplicate(&self) -> (copy: LabelQuery)
        ensures
            copy == *self,
    {
        LabelQuery { text: self.text.clone() }
    }

    /// The text this query looks for.
    pub fn text(&self) -> (text: &str)
        ensures
            text@ == self.spec_text(),
    {
        self.text.as_str()
    }
}

} // verus!
