//! Discovery: what already exists, asked **before** anything new is created.
//!
//! Three rules this module keeps. A source that fails is reported, never fatal: it is recorded as
//! unavailable and the pass carries on. Nothing found is never reported as nothing exists: a
//! [`Discovered`] carries what was consulted, what each source looked at, and what could not be
//! reached. Every match says why it matched: the label, the kind it is held under, and the quality
//! of the match.

use vstd::multiset::Multiset;
use vstd::prelude::*;

use crate::skos::{
    kind_rank, kind_rank_of, lemma_text_lt_transitive, lemma_text_lt_trichotomy, node_lt,
    node_text, node_variant_rank, quality_rank, quality_rank_of, text_less, text_lt, LabelKind,
    LabelQuery, LexicalLabel, MatchQuality, Node,
};
use crate::text::{decimal, push_count, push_str, string_of};

verus! {

broadcast use vstd::seq_lib::group_to_multiset_ensures;

/// One label, in one source, that the query matched.
#[derive(Debug, Clone, PartialEq, Eq)]
pub struct Match {
    /// The source that answered: a [`DiscoveryProvider::name`].
    pub source: String,
    /// Where within that source, in the words the reader needs.
    pub within: String,
    /// Whether this is in the vocabulary the new concept would go into.
    pub home: bool,
    /// The resource the label belongs to.
    pub resource: Node,
    /// Its preferred label, for display.
    pub display: Option<String>,
    /// The label that matched, exactly as the source carries it.
    pub label: LexicalLabel,
    /// The kind it is held under, best first.
    pub kind: Option<LabelKind>,
    /// How it matched.
    pub quality: MatchQuality,
}

/// Where home ranks: the vocabulary being authored first.
pub open spec fn home_rank(home: bool) -> int {
    if home { 0 } else { 1 }
}

/// `a` ranks no later than `b` in a report: best quality first, then by the kind the label is
/// held under, then the home vocabulary, then by label text, then by resource.
pub open spec fn ranks_no_later(a: Match, b: Match) -> bool {
    let qa = quality_rank(a.quality);
    let qb = quality_rank(b.quality);
    let ka = kind_rank(a.kind);
    let kb = kind_rank(b.kind);
    let ha = home_rank(a.home);
    let hb = home_rank(b.home);
    let ta = a.label.text@;
    let tb = b.label.text@;
    ||| qa < qb
    ||| qa == qb && ka < kb
    ||| qa == qb && ka == kb && ha < hb
    ||| qa == qb && ka == kb && ha == hb && text_lt(ta, tb)
    ||| qa == qb && ka == kb && ha == hb && ta == tb && !node_lt(b.resource, a.resource)
}

/// The node order is a strict total order up to variant and text.
proof fn lemma_node_order(a: Node, b: Node, c: Node)
    ensures
        !node_lt(a, b) || !node_lt(b, a),
        node_lt(a, b) || node_lt(b, a) || (node_variant_rank(a) == node_variant_rank(b)
            && node_text(a) == node_text(b)),
        node_lt(a, b) && node_lt(b, c) ==> node_lt(a, c),
        !node_lt(b, a) && !node_lt(c, b) ==> !node_lt(c, a),
{
    lemma_text_lt_trichotomy(node_text(a), node_text(b));
    lemma_text_lt_trichotomy(node_text(b), node_text(c));
    lemma_text_lt_trichotomy(node_text(a), node_text(c));
    if node_lt(a, b) && node_lt(b, c) && node_variant_rank(a) == node_variant_rank(c) {
        lemma_text_lt_transitive(node_text(a), node_text(b), node_text(c));
    }
    if !node_lt(b, a) && !node_lt(c, b) && node_variant_rank(a) == node_variant_rank(c) {
        if text_lt(node_text(a), node_text(b)) && text_lt(node_text(b), node_text(c)) {
            lemma_text_lt_transitive(node_text(a), node_text(b), node_text(c));
        }
    }
}

/// The report's order is total: of any two matches, one ranks no later than the other.
pub proof fn lemma_ranking_is_total(a: Match, b: Match)
    ensures
        ranks_no_later(a, b) || ranks_no_later(b, a),
{
    lemma_text_lt_trichotomy(a.label.text@, b.label.text@);
    lemma_node_order(a.resource, b.resource, b.resource);
}

/// The report's order is transitive.
pub proof fn lemma_ranking_is_transitive(a: Match, b: Match, c: Match)
    requires
        ranks_no_later(a, b),
        ranks_no_later(b, c),
    ensures
        ranks_no_later(a, c),
{
    lemma_text_lt_trichotomy(a.label.text@, b.label.text@);
    lemma_text_lt_trichotomy(b.label.text@, c.label.text@);
    lemma_text_lt_trichotomy(a.label.text@, c.label.text@);
    if text_lt(a.label.text@, b.label.text@) && text_lt(b.label.text@, c.label.text@) {
        lemma_text_lt_transitive(a.label.text@, b.label.text@, c.label.text@);
    }
    lemma_node_order(a.resource, b.resource, c.resource);
}

/// Better matches rank first, whatever else the two share: the whole label before its beginning,
/// and its beginning before somewhere inside it; at equal quality, a label held under no kind
/// before a preferred label, a preferred before an alternative and an alternative before a hidden
/// one; at equal quality and kind, the home vocabulary before anywhere else.
pub proof fn lemma_better_match_ranks_first(a: Match, b: Match)
    ensures
        (a.quality == MatchQuality::Exact && b.quality != MatchQuality::Exact) || (a.quality
            == MatchQuality::Prefix && b.quality == MatchQuality::Contains) ==> ranks_no_later(a, b)
            && !ranks_no_later(b, a),
        a.quality == b.quality && ((a.kind is None && b.kind is Some) || (a.kind == Some(
            LabelKind::Preferred,
        ) && (b.kind == Some(LabelKind::Alternative) || b.kind == Some(LabelKind::Hidden))) || (
        a.kind == Some(LabelKind::Alternative) && b.kind == Some(LabelKind::Hidden)))
            ==> ranks_no_later(a, b) && !ranks_no_later(b, a),
        a.quality == b.quality && a.kind == b.kind && a.home && !b.home ==> ranks_no_later(a, b)
            && !ranks_no_later(b, a),
{
}

/// `m` placed into `sorted` after every match that ranks no later than it.
pub open spec fn insert_ranked(sorted: Seq<Match>, m: Match) -> Seq<Match>
    decreases sorted.len(),
{
    if sorted.len() == 0 {
        seq![m]
    } else if ranks_no_later(sorted[0], m) {
        seq![sorted[0]] + insert_ranked(sorted.drop_first(), m)
    } else {
        seq![m] + sorted
    }
}

/// `matches` in report order, ties kept in the order they were given: a stable sort.
pub open spec fn ranked(matches: Seq<Match>) -> Seq<Match>
    decreases matches.len(),
{
    if matches.len() == 0 {
        Seq::empty()
    } else {
        insert_ranked(ranked(matches.drop_last()), matches.last())
    }
}

/// Every match ranks no later than every match after it.
pub open spec fn is_ranked(s: Seq<Match>) -> bool {
    forall|i: int, j: int| 0 <= i < j < s.len() ==> ranks_no_later(#[trigger] s[i], #[trigger] s[j])
}

/// Inserting into a ranked list is splicing at the first place that ranks later.
proof fn lemma_insert_ranked_splices(sorted: Seq<Match>, m: Match, p: int)
    requires
        0 <= p <= sorted.len(),
        forall|i: int| 0 <= i < p ==> ranks_no_later(#[trigger] sorted[i], m),
        p < sorted.len() ==> !ranks_no_later(sorted[p], m),
    ensures
        insert_ranked(sorted, m) == sorted.take(p) + seq![m] + sorted.skip(p),
    decreases sorted.len(),
{
    if sorted.len() == 0 {
        assert(sorted.take(p) + seq![m] + sorted.skip(p) =~= seq![m]);
    } else if p == 0 {
        assert(sorted.take(p) + seq![m] + sorted.skip(p) =~= seq![m] + sorted);
    } else {
        let rest = sorted.drop_first();
        assert forall|i: int| 0 <= i < p - 1 implies ranks_no_later(#[trigger] rest[i], m) by {
            assert(rest[i] == sorted[i + 1]);
        }
        lemma_insert_ranked_splices(rest, m, p - 1);
        assert(sorted.take(p) + seq![m] + sorted.skip(p) =~= seq![sorted[0]] + (rest.take(p - 1)
            + seq![m] + rest.skip(p - 1)));
    }
}

/// Inserting keeps a list ranked and adds exactly the one match.
proof fn lemma_insert_ranked_keeps_rank(sorted: Seq<Match>, m: Match)
    requires
        is_ranked(sorted),
    ensures
        is_ranked(insert_ranked(sorted, m)),
        insert_ranked(sorted, m).to_multiset() == sorted.to_multiset().insert(m),
        insert_ranked(sorted, m).len() == sorted.len() + 1,
    decreases sorted.len(),
{
    if sorted.len() == 0 {
        assert(insert_ranked(sorted, m) =~= seq![m]);
        assert(seq![m] =~= Seq::<Match>::empty().push(m));
    } else if ranks_no_later(sorted[0], m) {
        let rest = sorted.drop_first();
        assert forall|i: int, j: int| 0 <= i < j < rest.len() implies ranks_no_later(
            #[trigger] rest[i],
            #[trigger] rest[j],
        ) by {
            assert(rest[i] == sorted[i + 1] && rest[j] == sorted[j + 1]);
        }
        lemma_insert_ranked_keeps_rank(rest, m);
        let tail = insert_ranked(rest, m);
        let whole = seq![sorted[0]] + tail;
        assert forall|j: int| 0 <= j < tail.len() implies ranks_no_later(
            sorted[0],
            #[trigger] tail[j],
        ) by {
            assert(tail.to_multiset().contains(tail[j]));
            assert(rest.to_multiset().insert(m).contains(tail[j]));
            if tail[j] != m {
                assert(rest.to_multiset().contains(tail[j]));
                let k = choose|k: int| 0 <= k < rest.len() && rest[k] == tail[j];
                assert(sorted[k + 1] == rest[k]);
            }
        }
        assert forall|i: int, j: int| 0 <= i < j < whole.len() implies ranks_no_later(
            #[trigger] whole[i],
            #[trigger] whole[j],
        ) by {
            if i == 0 {
                assert(whole[j] == tail[j - 1]);
            } else {
                assert(whole[i] == tail[i - 1] && whole[j] == tail[j - 1]);
            }
        }
        assert(sorted =~= seq![sorted[0]] + rest);
        vstd::seq_lib::lemma_multiset_commutative(seq![sorted[0]], rest);
        vstd::seq_lib::lemma_multiset_commutative(seq![sorted[0]], tail);
        assert(seq![sorted[0]] =~= Seq::<Match>::empty().push(sorted[0]));
        assert(seq![sorted[0]].to_multiset() =~= Multiset::empty().insert(sorted[0]));
        assert(whole.to_multiset() =~= sorted.to_multiset().insert(m));
    } else {
        let whole = seq![m] + sorted;
        lemma_ranking_is_total(sorted[0], m);
        assert forall|i: int, j: int| 0 <= i < j < whole.len() implies ranks_no_later(
            #[trigger] whole[i],
            #[trigger] whole[j],
        ) by {
            if i == 0 {
                assert(whole[j] == sorted[j - 1]);
                if j - 1 > 0 {
                    lemma_ranking_is_transitive(m, sorted[0], sorted[j - 1]);
                }
            } else {
                assert(whole[i] == sorted[i - 1] && whole[j] == sorted[j - 1]);
            }
        }
        vstd::seq_lib::lemma_multiset_commutative(seq![m], sorted);
        assert(seq![m] =~= Seq::<Match>::empty().push(m));
        assert(seq![m].to_multiset() =~= Multiset::empty().insert(m));
        assert(whole.to_multiset() =~= sorted.to_multiset().insert(m));
    }
}

/// **The ranking law.** A ranked list is in report order and holds exactly the matches it was
/// given, each as many times as it was given.
pub proof fn lemma_ranked_is_a_sorted_permutation(matches: Seq<Match>)
    ensures
        is_ranked(ranked(matches)),
        ranked(matches).to_multiset() == matches.to_multiset(),
        ranked(matches).len() == matches.len(),
    decreases matches.len(),
{
    if matches.len() > 0 {
        lemma_ranked_is_a_sorted_permutation(matches.drop_last());
        lemma_insert_ranked_keeps_rank(ranked(matches.drop_last()), matches.last());
        assert(matches =~= matches.drop_last().push(matches.last()));
    } else {
        assert(matches.to_multiset() =~= Multiset::empty());
        assert(ranked(matches).to_multiset() =~= Multiset::empty());
    }
}

impl Match {
    /// Whether the label matched in full: the case where creating a second one is a duplicate.
    pub fn is_exact(&self) -> (exact: bool)
        ensures
            exact == (self.quality == MatchQuality::Exact),
    {
        match self.quality {
            MatchQuality::Exact => true,
            _ => false,
        }
    }

    /// Whether this match ranks no later than `other` in a report.
    pub fn ranks_no_later_than(&self, other: &Match) -> (no_later: bool)
        ensures
            no_later == ranks_no_later(*self, *other),
    {
        let qa = quality_rank_of(self.quality);
        let qb = quality_rank_of(other.quality);
        if qa != qb {
            return qa < qb;
        }
        let ka = kind_rank_of(self.kind);
        let kb = kind_rank_of(other.kind);
        if ka != kb {
            return ka < kb;
        }
        if self.home != other.home {
            return self.home;
        }
        let ta = self.label.text.as_str();
        let tb = other.label.text.as_str();
        if text_less(ta, tb) {
            return true;
        }
        if text_less(tb, ta) {
            proof {
                lemma_text_lt_trichotomy(ta@, tb@);
            }
            return false;
        }
        proof {
            lemma_text_lt_trichotomy(ta@, tb@);
        }
        !other.resource.sorts_before(&self.resource)
    }
}

/// `matches` in report order: a stable insertion sort.
fn rank(matches: Vec<Match>) -> (sorted: Vec<Match>)
    ensures
        sorted@ == ranked(matches@),
{
    let ghost given = matches@;
    let mut rest = matches;
    let mut sorted: Vec<Match> = Vec::new();
    let mut done: usize = 0;
    let total = rest.len();
    while rest.len() > 0
        invariant
            done + rest@.len() == given.len(),
            total == given.len(),
            rest@ == given.skip(done as int),
            sorted@ == ranked(given.take(done as int)),
            is_ranked(sorted@),
        decreases rest@.len(),
    {
        let m = rest.remove(0);
        let ghost before = sorted@;
        let mut p: usize = 0;
        while p < sorted.len() && sorted[p].ranks_no_later_than(&m)
            invariant
                p <= sorted@.len(),
                sorted@ == before,
                forall|i: int| 0 <= i < p ==> ranks_no_later(#[trigger] sorted@[i], m),
            decreases sorted@.len() - p,
        {
            p = p + 1;
        }
        proof {
            lemma_insert_ranked_splices(before, m, p as int);
            lemma_insert_ranked_keeps_rank(before, m);
            assert(given.take(done + 1).drop_last() =~= given.take(done as int));
            assert(given.take(done + 1).last() == m);
        }
        sorted.insert(p, m);
        proof {
            assert(sorted@ =~= before.take(p as int) + seq![m] + before.skip(p as int));
        }
        done = done + 1;
        proof {
            assert(rest@ =~= given.skip(done as int));
        }
    }
    proof {
        assert(given.take(done as int) =~= given);
    }
    sorted
}

/// What one source found, and what it looked at to find it.
#[derive(Debug, Clone, PartialEq, Eq)]
pub struct SourceAnswer {
    /// Every match, in any order. A discovery pass ranks and bounds them.
    pub matches: Vec<Match>,
    /// What this source actually looked at, in the reader's words.
    pub searched: String,
    /// How many (resource, label) pairs were considered.
    pub labels_read: usize,
}

/// A source could not be consulted. Never fatal: the reason is carried so the report can name it.
#[derive(Debug, Clone, PartialEq, Eq)]
pub struct Unavailable {
    /// Why, in a sentence a curator can act on.
    pub reason: String,
}

impl Unavailable {
    /// A source that could not answer, and why.
    pub fn because(reason: &str) -> (unavailable: Unavailable)
        ensures
            unavailable.reason@ == reason@,
    {
        Unavailable { reason: reason.to_owned() }
    }

    /// The reason, as the report prints it.
    pub fn to_string(&self) -> (text: String)
        ensures
            text@ == self.reason@,
    {
        self.reason.clone()
    }
}

/// A source discovery can ask: the local store, a federated peer, a SPARQL endpoint, a public
/// registry, an enterprise catalog.
///
/// What a source answers is up to the source: each implementation says, through
/// [`DiscoveryProvider::gives`], which answers it gives to a query, and discovery relies on no more
/// than that every answer it was handed is one of them.
pub trait DiscoveryProvider {
    /// The name this source reports under. An implementation that does not say is taken to
    /// report under no name at all.
    open spec fn spec_name(&self) -> Seq<char> {
        Seq::empty()
    }

    /// Whether `answer` is an answer this source gives when asked about `query`. An
    /// implementation that does not say claims nothing of its answers: any is one it gives.
    open spec fn gives(&self, query: LabelQuery, answer: Result<SourceAnswer, Unavailable>) -> bool {
        true
    }

    /// What this source is called in a report.
    fn name(&self) -> (name: &str)
        ensures
            name@ == self.spec_name(),
    ;

    /// Ask this source for everything it holds that matches.
    ///
    /// Returning [`Unavailable`] is a normal outcome: a pass records it and carries on.
    fn search(&self, query: &LabelQuery) -> (answer: Result<SourceAnswer, Unavailable>)
        ensures
            self.gives(*query, answer),
    ;

    /// Ask this source about several labels at once, answering one per query, in order.
    ///
    /// The default asks [`DiscoveryProvider::search`] once per query and stops at the first
    /// source that cannot answer. A source that can answer many questions from one reading of
    /// itself overrides this; an answer of the wrong length is treated as unavailable.
    fn search_each(&self, queries: &[LabelQuery]) -> (answers: Result<Vec<SourceAnswer>, Unavailable>)
        ensures
            answers matches Ok(a) ==> (a@.len() == queries@.len() ==> forall|i: int|
                0 <= i < a@.len() ==> self.gives(queries@[i], Ok(#[trigger] a@[i]))),
            answers matches Err(u) ==> (queries@.len() > 0 ==> exists|i: int|
                0 <= i < queries@.len() && self.gives(#[trigger] queries@[i], Err(u))),
        default_ensures
            answers matches Ok(a) ==> a@.len() == queries@.len(),
            queries@.len() == 0 ==> answers matches Ok(a),
    {
        let mut answers: Vec<SourceAnswer> = Vec::new();
        let mut i: usize = 0;
        while i < queries.len()
            invariant
                i <= queries@.len(),
                answers@.len() == i,
                forall|j: int| 0 <= j < i ==> self.gives(queries@[j], Ok(#[trigger] answers@[j])),
            decreases queries@.len() - i,
        {
            match self.search(&queries[i]) {
                Ok(answer) => answers.push(answer),
                Err(unavailable) => {
                    let failed: Result<Vec<SourceAnswer>, Unavailable> = Err(unavailable);
                    assert(self.gives(queries@[i as int], Err(failed->Err_0)));
                    return failed;
                },
            }
            i = i + 1;
        }
        Ok(answers)
    }
}

/// Answers as sequences.
pub open spec fn answers_view(answers: Result<Vec<SourceAnswer>, Unavailable>) -> Result<
    Seq<SourceAnswer>,
    Unavailable,
> {
    match answers {
        Ok(a) => Ok(a@),
        Err(u) => Err(u),
    }
}

/// `answers` is what `source` gives when asked about `queries` together: one answer per query
/// that it gives to that query, or, when it was asked anything, a refusal it gives to one of them.
/// An answer of another length is allowed, and treated as a refusal by discovery.
pub open spec fn gives_each<P: DiscoveryProvider + ?Sized>(
    source: &P,
    queries: Seq<LabelQuery>,
    answers: Result<Seq<SourceAnswer>, Unavailable>,
) -> bool {
    match answers {
        Ok(a) => a.len() == queries.len() ==> forall|i: int|
            0 <= i < a.len() ==> source.gives(queries[i], Ok(#[trigger] a[i])),
        Err(u) => queries.len() > 0 ==> exists|i: int|
            0 <= i < queries.len() && source.gives(#[trigger] queries[i], Err(u)),
    }
}

/// How many matches a discovery pass reports before it starts counting instead.
#[derive(Debug, Clone, Copy, PartialEq, Eq)]
pub struct DiscoveryBound {
    /// The most matches to report.
    pub max_matches: usize,
}

/// How many matches a pass reports by default: a screen's worth, with the count of what was
/// withheld making the twenty-first discoverable.
pub const DEFAULT_MAX_MATCHES: usize = 20;

impl Default for DiscoveryBound {
    /// [`DEFAULT_MAX_MATCHES`] matches.
    fn default() -> (bound: DiscoveryBound)
        ensures
            bound.max_matches == DEFAULT_MAX_MATCHES,
    {
        DiscoveryBound { max_matches: DEFAULT_MAX_MATCHES }
    }
}

/// What one source was asked, and what came back.
#[derive(Debug, Clone, PartialEq, Eq)]
pub struct Consulted {
    /// The source's name.
    pub source: String,
    /// What it said.
    pub outcome: Outcome,
}

/// How a source answered.
#[derive(Debug, Clone, PartialEq, Eq)]
pub enum Outcome {
    /// It answered.
    Answered {
        /// How many matches it returned, before the bound.
        matched: usize,
        /// What it looked at.
        searched: String,
        /// How many (resource, label) pairs it considered.
        labels_read: usize,
    },
    /// It could not be reached, or refused.
    Unavailable {
        /// Why.
        reason: String,
    },
}

/// A copy of `outcome`.
fn copy_outcome(outcome: &Outcome) -> (copy: Outcome)
    ensures
        copy == *outcome,
{
    match outcome {
        Outcome::Answered { matched, searched, labels_read } => Outcome::Answered {
            matched: *matched,
            searched: searched.clone(),
            labels_read: *labels_read,
        },
        Outcome::Unavailable { reason } => Outcome::Unavailable { reason: reason.clone() },
    }
}

/// A copy of `entry`.
fn copy_consulted(entry: &Consulted) -> (copy: Consulted)
    ensures
        copy == *entry,
{
    Consulted { source: entry.source.clone(), outcome: copy_outcome(&entry.outcome) }
}

/// Whether two outcomes for one source can be merged without a count overflowing.
pub open spec fn merge_fits(existing: Outcome, next: Outcome) -> bool {
    match (existing, next) {
        (
            Outcome::Answered { matched, labels_read, .. },
            Outcome::Answered { matched: more, labels_read: read, .. },
        ) => matched + more <= usize::MAX && labels_read + read <= usize::MAX,
        _ => true,
    }
}

/// Two outcomes for one source, over two labels, as one outcome for that source: the counts
/// summed and the first description kept when both answered, and unavailable otherwise, with the
/// first reason there is.
pub open spec fn merged(existing: Outcome, next: Outcome) -> Outcome {
    match (existing, next) {
        (
            Outcome::Answered { matched, searched, labels_read },
            Outcome::Answered { matched: more, labels_read: read, .. },
        ) => Outcome::Answered {
            matched: (matched + more) as usize,
            searched,
            labels_read: (labels_read + read) as usize,
        },
        (Outcome::Unavailable { reason }, _) => Outcome::Unavailable { reason },
        (_, Outcome::Unavailable { reason }) => Outcome::Unavailable { reason },
    }
}

/// Two outcomes for one source, over two labels, as one outcome for that source.
///
/// Unavailable wins, in either position.
pub fn merge(existing: Outcome, next: Outcome) -> (outcome: Outcome)
    requires
        merge_fits(existing, next),
    ensures
        outcome == merged(existing, next),
{
    match (existing, next) {
        (
            Outcome::Answered { matched, searched, labels_read },
            Outcome::Answered { matched: more, labels_read: read, .. },
        ) => Outcome::Answered {
            matched: matched + more,
            searched,
            labels_read: labels_read + read,
        },
        (Outcome::Unavailable { reason }, _) => Outcome::Unavailable { reason },
        (_, Outcome::Unavailable { reason }) => Outcome::Unavailable { reason },
    }
}

/// **Unavailable wins.** Merging an unavailable outcome with anything, in either position, is
/// unavailable; and two answers merge to an answer whose counts are the sums.
pub proof fn lemma_unavailable_wins(existing: Outcome, next: Outcome)
    ensures
        existing is Unavailable ==> merged(existing, next) == existing,
        next is Unavailable && existing is Answered ==> merged(existing, next) == next,
        (existing is Answered && next is Answered) <==> merged(existing, next) is Answered,
{
}

/// Everything discovery found, and everything it could not.
///
/// The listing never claims more than was found, and never more than the bound allows.
#[derive(Debug, PartialEq, Eq)]
pub struct Discovered {
    matches: Vec<Match>,
    matched: usize,
    consulted: Vec<Consulted>,
    bound: DiscoveryBound,
}

/// The matches whose label matched in full, in order.
pub open spec fn exact_of(s: Seq<Match>) -> Seq<Match>
    decreases s.len(),
{
    if s.len() == 0 {
        Seq::empty()
    } else if s.last().quality == MatchQuality::Exact {
        exact_of(s.drop_last()).push(s.last())
    } else {
        exact_of(s.drop_last())
    }
}

/// The matches that matched on part of a label, in order.
pub open spec fn related_of(s: Seq<Match>) -> Seq<Match>
    decreases s.len(),
{
    if s.len() == 0 {
        Seq::empty()
    } else if s.last().quality != MatchQuality::Exact {
        related_of(s.drop_last()).push(s.last())
    } else {
        related_of(s.drop_last())
    }
}

/// The sources that could not answer, with their reasons, in the order they were asked.
pub open spec fn unavailable_of(s: Seq<Consulted>) -> Seq<(Seq<char>, Seq<char>)>
    decreases s.len(),
{
    if s.len() == 0 {
        Seq::empty()
    } else {
        match s.last().outcome {
            Outcome::Unavailable { reason } => unavailable_of(s.drop_last()).push(
                (s.last().source@, reason@),
            ),
            Outcome::Answered { .. } => unavailable_of(s.drop_last()),
        }
    }
}

/// `collected` ranked and cut at `bound`.
pub open spec fn listing(collected: Seq<Match>, bound: DiscoveryBound) -> Seq<Match> {
    let r = ranked(collected);
    if r.len() <= bound.max_matches {
        r
    } else {
        r.take(bound.max_matches as int)
    }
}

impl Discovered {
    /// The listed matches, best first, up to the bound.
    pub closed spec fn listed(self) -> Seq<Match> {
        self.matches@
    }

    /// How many matches every source returned in total.
    pub closed spec fn total(self) -> nat {
        self.matched as nat
    }

    /// Every source asked, in the order they were asked.
    pub closed spec fn asked(self) -> Seq<Consulted> {
        self.consulted@
    }

    /// The bound this pass ran under.
    pub closed spec fn ran_under(self) -> DiscoveryBound {
        self.bound
    }

    /// What a pass over `collected`, having asked `consulted`, reports under `bound`.
    pub closed spec fn reports(
        self,
        collected: Seq<Match>,
        consulted: Seq<Consulted>,
        bound: DiscoveryBound,
    ) -> bool {
        &&& self.matches@ == listing(collected, bound)
        &&& self.matched == collected.len()
        &&& self.consulted@ == consulted
        &&& self.bound == bound
    }

    #[verifier::type_invariant]
    closed spec fn never_lists_more_than_found(self) -> bool {
        &&& self.matches@.len() <= self.matched
        &&& self.matches@.len() <= self.bound.max_matches
    }

    /// A pass reporting `collected` lists the best of them, in report order: exactly as many as
    /// were found or as the bound allows, whichever is fewer, and each one a match that was found.
    pub proof fn lemma_lists_the_best(
        self,
        collected: Seq<Match>,
        consulted: Seq<Consulted>,
        bound: DiscoveryBound,
    )
        requires
            self.reports(collected, consulted, bound),
        ensures
            is_ranked(self.listed()),
            self.listed().len() == if collected.len() <= bound.max_matches {
                collected.len()
            } else {
                bound.max_matches as nat
            },
            forall|i: int|
                0 <= i < self.listed().len() ==> collected.contains(#[trigger] self.listed()[i]),
            self.listed() == ranked(collected).take(self.listed().len() as int),
    {
        lemma_ranked_is_a_sorted_permutation(collected);
        let r = ranked(collected);
        assert forall|i: int| 0 <= i < self.listed().len() implies collected.contains(
            #[trigger] self.listed()[i],
        ) by {
            assert(self.listed()[i] == r[i]);
            assert(r.to_multiset().contains(r[i]));
        }
        if r.len() <= bound.max_matches {
            assert(r.take(r.len() as int) =~= r);
        }
    }

    /// In a pass's listing nothing stands after a match of worse quality: a match on the whole
    /// label is never listed after one on its beginning or somewhere inside it, and one on its
    /// beginning never after one somewhere inside it.
    pub proof fn lemma_listing_puts_better_quality_first(
        self,
        collected: Seq<Match>,
        consulted: Seq<Consulted>,
        bound: DiscoveryBound,
        i: int,
        j: int,
    )
        requires
            self.reports(collected, consulted, bound),
            0 <= i < j < self.listed().len(),
        ensures
            self.listed()[j].quality == MatchQuality::Exact ==> self.listed()[i].quality
                == MatchQuality::Exact,
            self.listed()[j].quality == MatchQuality::Prefix ==> self.listed()[i].quality
                != MatchQuality::Contains,
    {
        self.lemma_lists_the_best(collected, consulted, bound);
        let l = self.listed();
        assert(ranks_no_later(l[i], l[j]));
        lemma_better_match_ranks_first(l[j], l[i]);
    }

    /// The matches, best first, up to the bound.
    ///
    /// Never more than were found, and never more than the bound.
    pub fn matches(&self) -> (listed: &[Match])
        ensures
            listed@ == self.listed(),
            self.listed().len() <= self.total(),
            self.listed().len() <= self.ran_under().max_matches,
    {
        proof {
            use_type_invariant(self);
        }
        self.matches.as_slice()
    }

    /// The ones whose label is the query in full: where creating another is creating a duplicate.
    pub fn exact(&self) -> (exact: Vec<&Match>)
        ensures
            exact@.len() == exact_of(self.listed()).len(),
            forall|i: int| 0 <= i < exact@.len() ==> *exact@[i] == exact_of(self.listed())[i],
    {
        let mut out: Vec<&Match> = Vec::new();
        let mut i: usize = 0;
        while i < self.matches.len()
            invariant
                i <= self.matches@.len(),
                out@.len() == exact_of(self.matches@.take(i as int)).len(),
                forall|k: int|
                    0 <= k < out@.len() ==> *out@[k] == exact_of(self.matches@.take(i as int))[k],
            decreases self.matches@.len() - i,
        {
            proof {
                assert(self.matches@.take(i + 1).drop_last() =~= self.matches@.take(i as int));
            }
            if self.matches[i].is_exact() {
                out.push(&self.matches[i]);
            }
            i = i + 1;
        }
        proof {
            assert(self.matches@.take(i as int) =~= self.matches@);
        }
        out
    }

    /// The ones that matched on part of a label: related terms, not the same term.
    pub fn related(&self) -> (related: Vec<&Match>)
        ensures
            related@.len() == related_of(self.listed()).len(),
            forall|i: int|
                0 <= i < related@.len() ==> *related@[i] == related_of(self.listed())[i],
    {
        let mut out: Vec<&Match> = Vec::new();
        let mut i: usize = 0;
        while i < self.matches.len()
            invariant
                i <= self.matches@.len(),
                out@.len() == related_of(self.matches@.take(i as int)).len(),
                forall|k: int|
                    0 <= k < out@.len() ==> *out@[k] == related_of(self.matches@.take(i as int))[k],
            decreases self.matches@.len() - i,
        {
            proof {
                assert(self.matches@.take(i + 1).drop_last() =~= self.matches@.take(i as int));
            }
            if !self.matches[i].is_exact() {
                out.push(&self.matches[i]);
            }
            i = i + 1;
        }
        proof {
            assert(self.matches@.take(i as int) =~= self.matches@);
        }
        out
    }

    /// How many matches every source returned in total, including those the bound withheld.
    pub fn matched(&self) -> (matched: usize)
        ensures
            matched == self.total(),
    {
        self.matched
    }

    /// How many matched but are not listed, because the bound was reached.
    pub fn withheld(&self) -> (withheld: usize)
        ensures
            withheld == self.total() - self.listed().len(),
            withheld + self.listed().len() == self.total(),
    {
        proof {
            use_type_invariant(self);
        }
        self.matched - self.matches.len()
    }

    /// Whether every match is listed.
    pub fn is_complete(&self) -> (complete: bool)
        ensures
            complete == (self.listed().len() == self.total()),
    {
        self.withheld() == 0
    }

    /// Whether nothing at all was found: only ever meaningful beside [`Discovered::unavailable`].
    pub fn is_empty(&self) -> (empty: bool)
        ensures
            empty == (self.total() == 0),
    {
        self.matched == 0
    }

    /// Every source asked, in the order they were asked.
    pub fn consulted(&self) -> (asked: &[Consulted])
        ensures
            asked@ == self.asked(),
    {
        self.consulted.as_slice()
    }

    /// The sources that could not answer, with their reasons.
    pub fn unavailable(&self) -> (unavailable: Vec<(&str, &str)>)
        ensures
            unavailable@.len() == unavailable_of(self.asked()).len(),
            forall|i: int|
                0 <= i < unavailable@.len() ==> (#[trigger] unavailable@[i].0@, unavailable@[i].1@)
                    == unavailable_of(self.asked())[i],
    {
        let mut out: Vec<(&str, &str)> = Vec::new();
        let mut i: usize = 0;
        while i < self.consulted.len()
            invariant
                i <= self.consulted@.len(),
                out@.len() == unavailable_of(self.consulted@.take(i as int)).len(),
                forall|k: int|
                    0 <= k < out@.len() ==> (#[trigger] out@[k].0@, out@[k].1@) == unavailable_of(
                        self.consulted@.take(i as int),
                    )[k],
            decreases self.consulted@.len() - i,
        {
            proof {
                assert(self.consulted@.take(i + 1).drop_last() =~= self.consulted@.take(i as int));
            }
            let entry = &self.consulted[i];
            match &entry.outcome {
                Outcome::Unavailable { reason } => {
                    out.push((entry.source.as_str(), reason.as_str()));
                },
                Outcome::Answered { .. } => {},
            }
            i = i + 1;
        }
        proof {
            assert(self.consulted@.take(i as int) =~= self.consulted@);
        }
        out
    }

    /// The bound this pass ran under.
    pub fn bound(&self) -> (bound: DiscoveryBound)
        ensures
            bound == self.ran_under(),
    {
        self.bound
    }
}

/// Every consultation entry of `passes`, pass after pass, in the order each pass asked.
pub open spec fn entries_of(passes: Seq<Discovered>) -> Seq<Consulted>
    decreases passes.len(),
{
    if passes.len() == 0 {
        Seq::empty()
    } else {
        entries_of(passes.drop_last()) + passes.last().asked()
    }
}

/// The first position in `state` whose source is called `name`, or -1.
pub open spec fn find_source(state: Seq<Consulted>, name: Seq<char>) -> int
    decreases state.len(),
{
    if state.len() == 0 {
        -1
    } else if state[0].source@ == name {
        0
    } else {
        let rest = find_source(state.drop_first(), name);
        if rest < 0 {
            -1
        } else {
            rest + 1
        }
    }
}

/// `entry` recorded into `state`: merged into the record already kept for its source, or
/// appended when its source is new.
pub open spec fn record_entry(state: Seq<Consulted>, entry: Consulted) -> Seq<Consulted> {
    let j = find_source(state, entry.source@);
    if j < 0 {
        state.push(entry)
    } else {
        state.update(
            j,
            Consulted { source: state[j].source, outcome: merged(state[j].outcome, entry.outcome) },
        )
    }
}

/// Every entry recorded, first asked first.
pub open spec fn merged_record(entries: Seq<Consulted>) -> Seq<Consulted>
    decreases entries.len(),
{
    if entries.len() == 0 {
        Seq::empty()
    } else {
        record_entry(merged_record(entries.drop_last()), entries.last())
    }
}

/// No count overflows while `entries` are recorded.
pub open spec fn record_fits(entries: Seq<Consulted>) -> bool
    decreases entries.len(),
{
    if entries.len() == 0 {
        true
    } else {
        let state = merged_record(entries.drop_last());
        let j = find_source(state, entries.last().source@);
        &&& record_fits(entries.drop_last())
        &&& (j < 0 || merge_fits(state[j].outcome, entries.last().outcome))
    }
}

/// The first position whose source is `name` is the one a front-to-back scan stops at.
proof fn lemma_find_source(state: Seq<Consulted>, name: Seq<char>, j: int)
    requires
        0 <= j <= state.len(),
        forall|k: int| 0 <= k < j ==> (#[trigger] state[k]).source@ != name,
        j < state.len() ==> state[j].source@ == name,
    ensures
        find_source(state, name) == if j == state.len() {
            -1
        } else {
            j
        },
    decreases state.len(),
{
    if state.len() > 0 && j > 0 {
        let rest = state.drop_first();
        assert forall|k: int| 0 <= k < j - 1 implies (#[trigger] rest[k]).source@ != name by {
            assert(rest[k] == state[k + 1]);
        }
        lemma_find_source(rest, name, j - 1);
    }
}

/// A position found is a position holding that source.
proof fn lemma_found_source_holds_it(state: Seq<Consulted>, name: Seq<char>)
    ensures
        -1 <= find_source(state, name) < state.len(),
        find_source(state, name) >= 0 ==> state[find_source(state, name)].source@ == name,
        find_source(state, name) < 0 ==> forall|k: int|
            0 <= k < state.len() ==> (#[trigger] state[k]).source@ != name,
    decreases state.len(),
{
    if state.len() > 0 && state[0].source@ != name {
        let rest = state.drop_first();
        lemma_found_source_holds_it(rest, name);
        if find_source(rest, name) < 0 {
            assert forall|k: int| 0 <= k < state.len() implies (#[trigger] state[k]).source@
                != name by {
                if k > 0 {
                    assert(state[k] == rest[k - 1]);
                }
            }
        }
    }
}

/// Recording a longer list fits only if recording each of its prefixes fits.
proof fn lemma_record_fits_prefix(entries: Seq<Consulted>, n: int)
    requires
        record_fits(entries),
        0 <= n <= entries.len(),
    ensures
        record_fits(entries.take(n)),
    decreases entries.len() - n,
{
    if n < entries.len() {
        assert(entries.drop_last().take(n) =~= entries.take(n));
        lemma_record_fits_prefix(entries.drop_last(), n);
    } else {
        assert(entries.take(n) =~= entries);
    }
}

/// What the entries for source `name` report it matched, and how many labels it read, summed
/// over the passes that answered.
pub open spec fn answered_for(entries: Seq<Consulted>, name: Seq<char>) -> (int, int)
    decreases entries.len(),
{
    if entries.len() == 0 {
        (0, 0)
    } else {
        let before = answered_for(entries.drop_last(), name);
        let last = entries.last();
        if last.source@ == name {
            match last.outcome {
                Outcome::Answered { matched, labels_read, .. } => (
                    before.0 + matched,
                    before.1 + labels_read,
                ),
                Outcome::Unavailable { .. } => before,
            }
        } else {
            before
        }
    }
}

/// The first outcome that recorded source `name` unavailable, if any did.
pub open spec fn first_unavailable(entries: Seq<Consulted>, name: Seq<char>) -> Option<Outcome>
    decreases entries.len(),
{
    if entries.len() == 0 {
        None
    } else {
        match first_unavailable(entries.drop_last(), name) {
            Some(outcome) => Some(outcome),
            None => if entries.last().source@ == name && entries.last().outcome is Unavailable {
                Some(entries.last().outcome)
            } else {
                None
            },
        }
    }
}

/// **A source's merged outcome adds up its passes.** In the merged record, a source that some pass
/// recorded unavailable carries the first such outcome, with its reason; a source every pass
/// answered carries the matches and the labels read of all its passes, summed.
pub proof fn lemma_merged_record_sums(entries: Seq<Consulted>)
    requires
        record_fits(entries),
    ensures
        forall|i: int|
            0 <= i < merged_record(entries).len() ==> match first_unavailable(
                entries,
                (#[trigger] merged_record(entries)[i]).source@,
            ) {
                Some(outcome) => merged_record(entries)[i].outcome == outcome,
                None => merged_record(entries)[i].outcome matches Outcome::Answered {
                    matched,
                    labels_read,
                    ..
                } && matched == answered_for(entries, merged_record(entries)[i].source@).0
                    && labels_read == answered_for(entries, merged_record(entries)[i].source@).1,
            },
    decreases entries.len(),
{
    if entries.len() > 0 {
        let prior = entries.drop_last();
        let last = entries.last();
        lemma_merged_record_sums(prior);
        lemma_merged_record(prior);
        let state = merged_record(prior);
        lemma_found_source_holds_it(state, last.source@);
        let j = find_source(state, last.source@);
        let next = merged_record(entries);
        if j < 0 {
            assert(first_unavailable(prior, last.source@) is None && answered_for(prior, last.source@)
                == (0int, 0int)) by {
                lemma_absent_source_has_no_entries(prior, last.source@);
            }
        }
        assert forall|i: int| 0 <= i < next.len() implies match first_unavailable(
            entries,
            (#[trigger] next[i]).source@,
        ) {
            Some(outcome) => next[i].outcome == outcome,
            None => next[i].outcome matches Outcome::Answered { matched, labels_read, .. }
                && matched == answered_for(entries, next[i].source@).0 && labels_read
                == answered_for(entries, next[i].source@).1,
        } by {
            let name = next[i].source@;
            if i < state.len() && i != j {
                assert(next[i] == state[i]);
                if j >= 0 {
                    assert(state[i].source@ != state[j].source@);
                }
                assert(state[i].source@ != last.source@);
                assert(first_unavailable(entries, name) == first_unavailable(prior, name));
                assert(answered_for(entries, name) == answered_for(prior, name));
                assert(state[i] == merged_record(prior)[i]);
                assert(match first_unavailable(entries, name) {
                    Some(outcome) => next[i].outcome == outcome,
                    None => next[i].outcome matches Outcome::Answered { matched, labels_read, .. }
                        && matched == answered_for(entries, name).0 && labels_read
                        == answered_for(entries, name).1,
                });
            } else if i == j {
                assert(state[j].source@ == last.source@);
                assert(merge_fits(state[j].outcome, last.outcome));
                assert(state[j] == merged_record(prior)[j]);
                assert(next[j].outcome == merged(state[j].outcome, last.outcome));
                assert(name == last.source@);
                lemma_first_unavailable_is_unavailable(prior, name);
                match first_unavailable(prior, name) {
                    Some(outcome) => {
                        assert(state[j].outcome == outcome);
                        assert(outcome is Unavailable);
                        assert(first_unavailable(entries, name) == Some(outcome));
                    },
                    None => {
                        if last.outcome is Unavailable {
                            assert(first_unavailable(entries, name) == Some(last.outcome));
                        } else {
                            assert(first_unavailable(entries, name) is None);
                            let before = answered_for(prior, name);
                            match (state[j].outcome, last.outcome) {
                                (
                                    Outcome::Answered { matched, labels_read, .. },
                                    Outcome::Answered { matched: more, labels_read: read, .. },
                                ) => {
                                    assert(matched == before.0 && labels_read == before.1);
                                    assert(answered_for(entries, name) == (
                                        before.0 + more,
                                        before.1 + read,
                                    ));
                                },
                                _ => {},
                            }
                        }
                    },
                }
                assert(match first_unavailable(entries, name) {
                    Some(outcome) => next[i].outcome == outcome,
                    None => next[i].outcome matches Outcome::Answered { matched, labels_read, .. }
                        && matched == answered_for(entries, name).0 && labels_read
                        == answered_for(entries, name).1,
                });
            } else {
                assert(j < 0);
                assert(i == state.len());
                assert(next[i] == last);
                assert(name == last.source@);
                if last.outcome is Unavailable {
                    assert(first_unavailable(entries, name) == Some(last.outcome));
                } else {
                    assert(first_unavailable(entries, name) is None);
                }
                assert(match first_unavailable(entries, name) {
                    Some(outcome) => next[i].outcome == outcome,
                    None => next[i].outcome matches Outcome::Answered { matched, labels_read, .. }
                        && matched == answered_for(entries, name).0 && labels_read
                        == answered_for(entries, name).1,
                });
            }
        }
    }
}

/// The first outcome recording a source unavailable is an unavailable outcome.
proof fn lemma_first_unavailable_is_unavailable(entries: Seq<Consulted>, name: Seq<char>)
    ensures
        first_unavailable(entries, name) matches Some(outcome) ==> outcome is Unavailable,
    decreases entries.len(),
{
    if entries.len() > 0 {
        lemma_first_unavailable_is_unavailable(entries.drop_last(), name);
    }
}

/// A source the merged record does not hold was never asked in those entries.
proof fn lemma_absent_source_has_no_entries(entries: Seq<Consulted>, name: Seq<char>)
    requires
        find_source(merged_record(entries), name) < 0,
    ensures
        first_unavailable(entries, name) is None,
        answered_for(entries, name) == (0int, 0int),
    decreases entries.len(),
{
    if entries.len() > 0 {
        lemma_merged_record(entries);
        lemma_found_source_holds_it(merged_record(entries), name);
        let last = entries.last();
        assert(entries[entries.len() - 1] == last);
        assert(last.source@ != name);
        let prior = entries.drop_last();
        lemma_merged_record(prior);
        lemma_found_source_holds_it(merged_record(prior), name);
        if find_source(merged_record(prior), name) >= 0 {
            let at = find_source(merged_record(prior), name);
            let state = merged_record(prior);
            lemma_found_source_holds_it(state, last.source@);
            assert(merged_record(entries)[at].source@ == name);
        }
        lemma_absent_source_has_no_entries(prior, name);
    }
}

/// **Each source once, and unavailable if it was ever unavailable.** In the merged record every
/// source appears once; every source asked in any pass appears; and a source's merged outcome is
/// unavailable exactly when some pass recorded it unavailable.
pub proof fn lemma_merged_record(entries: Seq<Consulted>)
    ensures
        forall|i: int, j: int|
            0 <= i < j < merged_record(entries).len() ==> (#[trigger] merged_record(entries)[i]).source@
                != (#[trigger] merged_record(entries)[j]).source@,
        forall|e: int|
            0 <= e < entries.len() ==> find_source(merged_record(entries), (#[trigger] entries[e]).source@)
                >= 0,
        forall|i: int|
            0 <= i < merged_record(entries).len() ==> ((#[trigger] merged_record(entries)[i]).outcome is Unavailable
                <==> exists|e: int|
                0 <= e < entries.len() && entries[e].source@ == merged_record(entries)[i].source@
                    && entries[e].outcome is Unavailable),
        merged_record(entries).len() <= entries.len(),
    decreases entries.len(),
{
    if entries.len() > 0 {
        let prior = entries.drop_last();
        let last = entries.last();
        lemma_merged_record(prior);
        let state = merged_record(prior);
        lemma_found_source_holds_it(state, last.source@);
        let next = merged_record(entries);
        let j = find_source(state, last.source@);
        assert forall|i: int| 0 <= i < next.len() implies next[i].source@ == (if i < state.len() {
            state[i].source@
        } else {
            last.source@
        }) by {}
        assert forall|e: int| 0 <= e < entries.len() implies find_source(
            next,
            (#[trigger] entries[e]).source@,
        ) >= 0 by {
            lemma_found_source_holds_it(next, entries[e].source@);
            if e < prior.len() {
                assert(entries[e] == prior[e]);
                lemma_found_source_holds_it(state, prior[e].source@);
                let at = find_source(state, prior[e].source@);
                assert(next[at].source@ == prior[e].source@);
            } else {
                if j < 0 {
                    assert(next[state.len() as int].source@ == last.source@);
                } else {
                    assert(next[j].source@ == last.source@);
                }
            }
        }
        assert forall|i: int| 0 <= i < next.len() implies ((#[trigger] next[i]).outcome is Unavailable
            <==> exists|e: int|
            0 <= e < entries.len() && entries[e].source@ == next[i].source@
                && entries[e].outcome is Unavailable) by {
            if i < state.len() && i != j {
                assert(next[i] == state[i]);
                if exists|e: int|
                    0 <= e < prior.len() && prior[e].source@ == state[i].source@
                        && prior[e].outcome is Unavailable {
                    let e = choose|e: int|
                        0 <= e < prior.len() && prior[e].source@ == state[i].source@
                            && prior[e].outcome is Unavailable;
                    assert(entries[e] == prior[e]);
                }
                if exists|e: int|
                    0 <= e < entries.len() && entries[e].source@ == next[i].source@
                        && entries[e].outcome is Unavailable {
                    let e = choose|e: int|
                        0 <= e < entries.len() && entries[e].source@ == next[i].source@
                            && entries[e].outcome is Unavailable;
                    if e < prior.len() {
                        assert(entries[e] == prior[e]);
                    }
                }
            } else if i == j {
                lemma_unavailable_wins(state[j].outcome, last.outcome);
                if exists|e: int|
                    0 <= e < prior.len() && prior[e].source@ == state[i].source@
                        && prior[e].outcome is Unavailable {
                    let e = choose|e: int|
                        0 <= e < prior.len() && prior[e].source@ == state[i].source@
                            && prior[e].outcome is Unavailable;
                    assert(entries[e] == prior[e]);
                }
                if exists|e: int|
                    0 <= e < entries.len() && entries[e].source@ == next[i].source@
                        && entries[e].outcome is Unavailable {
                    let e = choose|e: int|
                        0 <= e < entries.len() && entries[e].source@ == next[i].source@
                            && entries[e].outcome is Unavailable;
                    if e < prior.len() {
                        assert(entries[e] == prior[e]);
                    }
                }
                if last.outcome is Unavailable {
                    assert(entries[entries.len() - 1] == last);
                }
            } else {
                assert(next[i] == last);
                assert(entries[entries.len() - 1] == last);
                if exists|e: int|
                    0 <= e < entries.len() && entries[e].source@ == next[i].source@
                        && entries[e].outcome is Unavailable {
                    let e = choose|e: int|
                        0 <= e < entries.len() && entries[e].source@ == next[i].source@
                            && entries[e].outcome is Unavailable;
                    if e < prior.len() {
                        assert(entries[e] == prior[e]);
                        lemma_found_source_holds_it(state, prior[e].source@);
                    }
                }
            }
        }
    }
}

impl Discovered {
    /// One consultation record covering several passes over the same sources.
    ///
    /// Each source appears once, first asked first, with its counts summed and its first
    /// description kept. A source unavailable to any pass is unavailable here, whatever the
    /// others said.
    pub fn consulted_across(passes: &[Discovered]) -> (record: Vec<Consulted>)
        requires
            record_fits(entries_of(passes@)),
        ensures
            record@ == merged_record(entries_of(passes@)),
    {
        let mut out: Vec<Consulted> = Vec::new();
        let mut i: usize = 0;
        while i < passes.len()
            invariant
                i <= passes@.len(),
                record_fits(entries_of(passes@)),
                out@ == merged_record(entries_of(passes@.take(i as int))),
            decreases passes@.len() - i,
        {
            let entries = passes[i].consulted();
            let ghost done = entries_of(passes@.take(i as int));
            proof {
                assert(passes@.take(i + 1).drop_last() =~= passes@.take(i as int));
                assert(entries_of(passes@.take(i + 1)) == done + entries@);
            }
            let mut k: usize = 0;
            while k < entries.len()
                invariant
                    i < passes@.len(),
                    k <= entries@.len(),
                    entries@ == passes@[i as int].asked(),
                    done == entries_of(passes@.take(i as int)),
                    entries_of(passes@.take(i + 1)) == done + entries@,
                    record_fits(entries_of(passes@)),
                    out@ == merged_record(done + entries@.take(k as int)),
                decreases entries@.len() - k,
            {
                let entry = &entries[k];
                let ghost prefix = done + entries@.take(k as int);
                proof {
                    assert((done + entries@.take(k + 1)).drop_last() =~= prefix);
                    assert((done + entries@.take(k + 1)).last() == *entry);
                    lemma_record_fits_prefix_of_passes(passes@, i as int);
                    lemma_record_fits_prefix(entries_of(passes@.take(i + 1)), prefix.len() + 1 as int);
                    assert(entries_of(passes@.take(i + 1)).take((prefix.len() + 1) as int) =~= done
                        + entries@.take(k + 1));
                }
                let mut j: usize = 0;
                while j < out.len() && out[j].source != entry.source
                    invariant
                        j <= out@.len(),
                        forall|m: int| 0 <= m < j ==> (#[trigger] out@[m]).source@ != entry.source@,
                    decreases out@.len() - j,
                {
                    j = j + 1;
                }
                proof {
                    lemma_find_source(out@, entry.source@, j as int);
                }
                if j < out.len() {
                    let outcome = merge(copy_outcome(&out[j].outcome), copy_outcome(&entry.outcome));
                    let source = out[j].source.clone();
                    out.set(j, Consulted { source, outcome });
                } else {
                    out.push(copy_consulted(entry));
                }
                k = k + 1;
            }
            proof {
                assert(entries@.take(k as int) =~= entries@);
            }
            i = i + 1;
        }
        proof {
            assert(passes@.take(i as int) =~= passes@);
        }
        out
    }
}

/// Recording the first passes fits whenever recording all of them does.
proof fn lemma_record_fits_prefix_of_passes(passes: Seq<Discovered>, i: int)
    requires
        record_fits(entries_of(passes)),
        0 <= i < passes.len(),
    ensures
        record_fits(entries_of(passes.take(i + 1))),
    decreases passes.len(),
{
    if i + 1 < passes.len() {
        let prior = passes.drop_last();
        assert(entries_of(passes) == entries_of(prior) + passes.last().asked());
        assert((entries_of(prior) + passes.last().asked()).take(entries_of(prior).len() as int)
            =~= entries_of(prior));
        lemma_record_fits_prefix(entries_of(passes), entries_of(prior).len() as int);
        assert(prior.take(i + 1) =~= passes.take(i + 1));
        lemma_record_fits_prefix_of_passes(prior, i);
    } else {
        assert(passes.take(i + 1) =~= passes);
    }
}

/// What one source said when a pass asked it about every label at once.
#[derive(Debug, PartialEq, Eq)]
pub struct SourceReply {
    /// The source's name.
    pub source: String,
    /// Its answers, one per label, or why it could not give them.
    pub answers: Result<Vec<SourceAnswer>, Unavailable>,
}

/// Whether `reply` answered exactly the `queries` labels it was asked about.
pub open spec fn answers_align(reply: SourceReply, queries: nat) -> bool {
    reply.answers matches Ok(a) && a@.len() == queries
}

/// Why a source that answered a different number of questions than it was asked is treated as
/// one that could not answer.
pub open spec fn misaligned(queries: nat, answered: nat) -> Seq<char> {
    "it was asked about "@ + decimal(queries) + " label(s) and answered "@ + decimal(answered)
        + ", so its answers cannot be told apart"@
}

/// `entry` is what a pass records of `reply` for the label at position `k` of `queries`.
pub open spec fn records_reply(entry: Consulted, reply: SourceReply, queries: nat, k: int) -> bool {
    &&& entry.source@ == reply.source@
    &&& match reply.answers {
        Ok(a) => if a@.len() == queries {
            entry.outcome matches Outcome::Answered { matched, searched, labels_read }
                && matched == a@[k].matches@.len() && searched@ == a@[k].searched@ && labels_read
                == a@[k].labels_read
        } else {
            entry.outcome matches Outcome::Unavailable { reason } && reason@ == misaligned(
                queries,
                a@.len(),
            )
        },
        Err(u) => entry.outcome matches Outcome::Unavailable { reason } && reason@ == u.reason@,
    }
}

/// Every match the sources that could answer returned for the label at position `k`, source
/// after source, each source's in the order it gave them.
pub open spec fn collected(replies: Seq<SourceReply>, queries: nat, k: int) -> Seq<Match>
    decreases replies.len(),
{
    if replies.len() == 0 {
        Seq::empty()
    } else {
        collected(replies.drop_last(), queries, k) + if answers_align(replies.last(), queries) {
            replies.last().answers->Ok_0@[k].matches@
        } else {
            Seq::empty()
        }
    }
}

/// `pass` is what discovery reports for the label at position `k` of `queries`, from `replies`,
/// under `bound`: the best of what was collected, the count of all of it, and one entry for every
/// source asked, in the order they were asked.
pub open spec fn tallied(
    pass: Discovered,
    replies: Seq<SourceReply>,
    queries: nat,
    k: int,
    bound: DiscoveryBound,
) -> bool {
    &&& pass.listed() == listing(collected(replies, queries, k), bound)
    &&& pass.total() == collected(replies, queries, k).len()
    &&& pass.ran_under() == bound
    &&& pass.asked().len() == replies.len()
    &&& forall|j: int|
        0 <= j < replies.len() ==> records_reply(#[trigger] pass.asked()[j], replies[j], queries, k)
}

/// `passes` are what discovery reports, label by label, from `replies` under `bound`.
pub open spec fn tallies(
    passes: Seq<Discovered>,
    replies: Seq<SourceReply>,
    queries: nat,
    bound: DiscoveryBound,
) -> bool {
    &&& passes.len() == queries
    &&& forall|k: int| 0 <= k < queries ==> tallied(#[trigger] passes[k], replies, queries, k, bound)
}

/// **One label is the first pass of a batch of one.** Given the same replies from the same
/// sources, what discovery reports for one label on its own (`across`) is what it reports as the
/// first pass of a batch holding only that label (`across_each`): the same matches listed, the same
/// count, the same bound, and each source recorded alike. With no sources, nobody is consulted and
/// nothing is found.
pub proof fn lemma_one_label_is_the_first_pass(
    pass: Discovered,
    passes: Seq<Discovered>,
    replies: Seq<SourceReply>,
    bound: DiscoveryBound,
)
    requires
        tallied(pass, replies, 1, 0, bound),
        tallies(passes, replies, 1, bound),
    ensures
        passes.len() == 1,
        pass.listed() == passes[0].listed(),
        pass.total() == passes[0].total(),
        pass.ran_under() == passes[0].ran_under(),
        pass.asked().len() == passes[0].asked().len(),
        forall|j: int|
            0 <= j < replies.len() ==> records_reply(#[trigger] pass.asked()[j], replies[j], 1, 0)
                && records_reply(passes[0].asked()[j], replies[j], 1, 0),
        replies.len() == 0 ==> pass.asked().len() == 0 && pass.total() == 0,
{
    assert(tallied(passes[0], replies, 1, 0, bound));
    if replies.len() == 0 {
        assert(collected(replies, 1, 0) =~= Seq::<Match>::empty());
    }
}

/// **A source that fails is unavailable to every label, and keeps nothing.** For every label of
/// a pass, a source that could not answer, or whose answers cannot be lined up with the labels,
/// is recorded as unavailable, and none of its matches is collected.
pub proof fn lemma_failing_source_is_unavailable_to_every_label(
    passes: Seq<Discovered>,
    replies: Seq<SourceReply>,
    queries: nat,
    bound: DiscoveryBound,
    j: int,
)
    requires
        passes.len() == queries,
        forall|k: int| 0 <= k < queries ==> tallied(#[trigger] passes[k], replies, queries, k, bound),
        0 <= j < replies.len(),
        !answers_align(replies[j], queries),
    ensures
        forall|k: int| 0 <= k < queries ==> (#[trigger] passes[k]).asked()[j].outcome is Unavailable,
        forall|k: int|
            0 <= k < queries ==> collected(replies, queries, k) == collected(
                replies.remove(j),
                queries,
                k,
            ),
{
    assert forall|k: int| 0 <= k < queries implies (#[trigger] passes[k]).asked()[j].outcome is Unavailable by {
        assert(records_reply(passes[k].asked()[j], replies[j], queries, k));
    }
    assert forall|k: int| 0 <= k < queries implies collected(replies, queries, k) == collected(
        replies.remove(j),
        queries,
        k,
    ) by {
        lemma_collected_skips(replies, queries, k, j);
    }
}

/// Removing a reply that contributes nothing leaves the collected matches unchanged.
proof fn lemma_collected_skips(replies: Seq<SourceReply>, queries: nat, k: int, j: int)
    requires
        0 <= j < replies.len(),
        !answers_align(replies[j], queries),
    ensures
        collected(replies, queries, k) == collected(replies.remove(j), queries, k),
    decreases replies.len(),
{
    if j == replies.len() - 1 {
        assert(replies.remove(j) =~= replies.drop_last());
        assert(collected(replies, queries, k) =~= collected(replies.drop_last(), queries, k));
    } else {
        lemma_collected_skips(replies.drop_last(), queries, k, j);
        assert(replies.remove(j).drop_last() =~= replies.drop_last().remove(j));
        assert(replies.remove(j).last() == replies.last());
    }
}

/// The pass itself: ask every source, rank what comes back, and account for the rest.
#[derive(Debug, Clone, Copy)]
pub struct Discovery {
    bound: DiscoveryBound,
}

impl Default for Discovery {
    /// A pass under the default bound.
    fn default() -> (discovery: Discovery)
        ensures
            discovery.limit().max_matches == DEFAULT_MAX_MATCHES,
    {
        Discovery { bound: DiscoveryBound { max_matches: DEFAULT_MAX_MATCHES } }
    }
}

/// The reason recorded for a source that answered `answered` questions when asked `queries`.
fn misaligned_reason(queries: usize, answered: usize) -> (reason: String)
    ensures
        reason@ == misaligned(queries as nat, answered as nat),
{
    let mut out = string_of("it was asked about ");
    push_count(&mut out, queries);
    push_str(&mut out, " label(s) and answered ");
    push_count(&mut out, answered);
    push_str(&mut out, ", so its answers cannot be told apart");
    out
}

impl Discovery {
    /// The bound this pass reports under.
    pub closed spec fn limit(self) -> DiscoveryBound {
        self.bound
    }

    /// A pass under the default bound of [`DEFAULT_MAX_MATCHES`].
    pub fn new() -> (discovery: Discovery)
        ensures
            discovery.limit().max_matches == DEFAULT_MAX_MATCHES,
    {
        Discovery::default()
    }

    /// A pass reporting at most `bound` matches.
    pub fn with_bound(self, bound: DiscoveryBound) -> (discovery: Discovery)
        ensures
            discovery.limit() == bound,
    {
        let mut next = self;
        next.bound = bound;
        next
    }

    /// Rank one label's matches, bound them, and keep the count of what the bound withheld.
    fn finish(&self, matches: Vec<Match>, consulted: Vec<Consulted>) -> (pass: Discovered)
        ensures
            pass.listed() == listing(matches@, self.bound),
            pass.total() == matches@.len(),
            pass.asked() == consulted@,
            pass.ran_under() == self.bound,
    {
        let matched = matches.len();
        let mut ranked_matches = rank(matches);
        proof {
            lemma_ranked_is_a_sorted_permutation(matches@);
        }
        let ghost before = ranked_matches@;
        ranked_matches.truncate(self.bound.max_matches);
        proof {
            if before.len() > self.bound.max_matches {
                assert(ranked_matches@ =~= before.take(self.bound.max_matches as int));
            } else {
                assert(ranked_matches@ =~= before);
            }
        }
        Discovered { matches: ranked_matches, matched, consulted, bound: self.bound }
    }

    /// Discovery over replies already gathered: one report per label, in the order the labels
    /// were asked, each listing the best of what the sources that could answer returned for that
    /// label and recording every source, in the order they were asked.
    pub fn tally(&self, replies: Vec<SourceReply>, queries: usize) -> (passes: Vec<Discovered>)
        ensures
            passes@.len() == queries,
            forall|k: int|
                0 <= k < queries ==> tallied(#[trigger] passes@[k], replies@, queries as nat, k, self.limit()),
    {
        let ghost given = replies@;
        let mut lists: Vec<Vec<Match>> = Vec::new();
        let mut records: Vec<Vec<Consulted>> = Vec::new();
        let mut k: usize = 0;
        while k < queries
            invariant
                k <= queries,
                lists@.len() == k,
                records@.len() == k,
                forall|m: int| 0 <= m < k ==> (#[trigger] lists@[m])@ == Seq::<Match>::empty(),
                forall|m: int| 0 <= m < k ==> (#[trigger] records@[m])@ == Seq::<Consulted>::empty(),
            decreases queries - k,
        {
            lists.push(Vec::new());
            records.push(Vec::new());
            k = k + 1;
        }
        let mut rest = replies;
        let mut r: usize = 0;
        let total = rest.len();
        while rest.len() > 0
            invariant
                total == given.len(),
                r + rest@.len() == given.len(),
                rest@ == given.skip(r as int),
                lists@.len() == queries,
                records@.len() == queries,
                forall|m: int|
                    0 <= m < queries ==> (#[trigger] lists@[m])@ == collected(
                        given.take(r as int),
                        queries as nat,
                        m,
                    ),
                forall|m: int| 0 <= m < queries ==> (#[trigger] records@[m])@.len() == r,
                forall|m: int, j: int|
                    0 <= m < queries && 0 <= j < r ==> records_reply(
                        #[trigger] records@[m]@[j],
                        given[j],
                        queries as nat,
                        m,
                    ),
            decreases rest@.len(),
        {
            let reply = rest.remove(0);
            proof {
                assert(reply == given[r as int]);
                assert(given.take(r + 1).drop_last() =~= given.take(r as int));
                assert(given.take(r + 1).last() == reply);
            }
            let ghost before_lists = lists@;
            let ghost before_records = records@;
            let SourceReply { source, answers } = reply;
            match answers {
                Ok(answers) => {
                    if answers.len() == queries {
                        let ghost all = answers@;
                        let mut left = answers;
                        let mut m: usize = 0;
                        while m < queries
                            invariant
                                m <= queries,
                                left@ == all.skip(m as int),
                                all.len() == queries,
                                reply.answers == Ok::<Vec<SourceAnswer>, Unavailable>(
                                    reply.answers->Ok_0,
                                ),
                                reply.answers->Ok_0@ == all,
                                source@ == reply.source@,
                                lists@.len() == queries,
                                records@.len() == queries,
                                forall|n: int|
                                    m <= n < queries ==> (#[trigger] lists@[n]) == before_lists[n],
                                forall|n: int|
                                    m <= n < queries ==> (#[trigger] records@[n]) == before_records[n],
                                forall|n: int|
                                    0 <= n < m ==> (#[trigger] lists@[n])@ == before_lists[n]@
                                        + all[n].matches@,
                                forall|n: int|
                                    0 <= n < m ==> (#[trigger] records@[n])@.drop_last()
                                        == before_records[n]@,
                                forall|n: int|
                                    0 <= n < m ==> (#[trigger] records@[n])@.len()
                                        == before_records[n]@.len() + 1,
                                forall|n: int|
                                    0 <= n < m ==> records_reply(
                                        (#[trigger] records@[n])@.last(),
                                        reply,
                                        queries as nat,
                                        n,
                                    ),
                            decreases queries - m,
                        {
                            let answer = left.remove(0);
                            proof {
                                assert(answer == all[m as int]);
                                assert(left@ =~= all.skip(m + 1));
                            }
                            let SourceAnswer { matches, searched, labels_read } = answer;
                            let matched = matches.len();
                            let mut moved = matches;
                            lists[m].append(&mut moved);
                            records[m].push(
                                Consulted {
                                    source: source.clone(),
                                    outcome: Outcome::Answered { matched, searched, labels_read },
                                },
                            );
                            m = m + 1;
                        }
                    } else {
                        let reason = misaligned_reason(queries, answers.len());
                        let mut m: usize = 0;
                        while m < queries
                            invariant
                                m <= queries,
                                reply.answers matches Ok(a) && a@.len() != queries,
                                reason@ == misaligned(queries as nat, reply.answers->Ok_0@.len()),
                                source@ == reply.source@,
                                lists@ == before_lists,
                                records@.len() == queries,
                                forall|n: int|
                                    m <= n < queries ==> (#[trigger] records@[n]) == before_records[n],
                                forall|n: int|
                                    0 <= n < m ==> (#[trigger] records@[n])@.drop_last()
                                        == before_records[n]@,
                                forall|n: int|
                                    0 <= n < m ==> (#[trigger] records@[n])@.len()
                                        == before_records[n]@.len() + 1,
                                forall|n: int|
                                    0 <= n < m ==> records_reply(
                                        (#[trigger] records@[n])@.last(),
                                        reply,
                                        queries as nat,
                                        n,
                                    ),
                            decreases queries - m,
                        {
                            records[m].push(
                                Consulted {
                                    source: source.clone(),
                                    outcome: Outcome::Unavailable { reason: reason.clone() },
                                },
                            );
                            m = m + 1;
                        }
                    }
                },
                Err(unavailable) => {
                    let mut m: usize = 0;
                    while m < queries
                        invariant
                            m <= queries,
                            reply.answers matches Err(u) && u.reason@ == unavailable.reason@,
                            source@ == reply.source@,
                            lists@ == before_lists,
                            records@.len() == queries,
                            forall|n: int|
                                m <= n < queries ==> (#[trigger] records@[n]) == before_records[n],
                            forall|n: int|
                                0 <= n < m ==> (#[trigger] records@[n])@.drop_last()
                                    == before_records[n]@,
                            forall|n: int|
                                0 <= n < m ==> (#[trigger] records@[n])@.len()
                                    == before_records[n]@.len() + 1,
                            forall|n: int|
                                0 <= n < m ==> records_reply(
                                    (#[trigger] records@[n])@.last(),
                                    reply,
                                    queries as nat,
                                    n,
                                ),
                        decreases queries - m,
                    {
                        records[m].push(
                            Consulted {
                                source: source.clone(),
                                outcome: Outcome::Unavailable { reason: unavailable.reason.clone() },
                            },
                        );
                        m = m + 1;
                    }
                },
            }
            proof {
                assert forall|n: int| 0 <= n < queries implies (#[trigger] lists@[n])@ == collected(
                    given.take(r + 1),
                    queries as nat,
                    n,
                ) by {}
                assert forall|n: int, j: int|
                    0 <= n < queries && 0 <= j < r + 1 implies records_reply(
                    #[trigger] records@[n]@[j],
                    given[j],
                    queries as nat,
                    n,
                ) by {
                    if j < r {
                        assert(records@[n]@[j] == records@[n]@.drop_last()[j]);
                    }
                }
            }
            r = r + 1;
            proof {
                assert(rest@ =~= given.skip(r as int));
            }
        }
        proof {
            assert(given.take(r as int) =~= given);
        }
        let mut passes: Vec<Discovered> = Vec::new();
        let mut lists = lists;
        let mut records = records;
        let ghost final_lists = lists@;
        let ghost final_records = records@;
        let mut m: usize = 0;
        while m < queries
            invariant
                m <= queries,
                final_lists.len() == queries,
                final_records.len() == queries,
                lists@ == final_lists.skip(m as int),
                records@ == final_records.skip(m as int),
                passes@.len() == m,
                forall|n: int|
                    0 <= n < queries ==> final_lists[n]@ == collected(given, queries as nat, n),
                forall|n: int| 0 <= n < queries ==> (#[trigger] final_records[n])@.len() == given.len(),
                forall|n: int, j: int|
                    0 <= n < queries && 0 <= j < given.len() ==> records_reply(
                        #[trigger] final_records[n]@[j],
                        given[j],
                        queries as nat,
                        n,
                    ),
                forall|n: int|
                    0 <= n < m ==> tallied(#[trigger] passes@[n], given, queries as nat, n, self.bound),
            decreases queries - m,
        {
            let list = lists.remove(0);
            let record = records.remove(0);
            proof {
                assert(list == final_lists[m as int]);
                assert(record == final_records[m as int]);
                assert(lists@ =~= final_lists.skip(m + 1));
                assert(records@ =~= final_records.skip(m + 1));
            }
            let pass = self.finish(list, record);
            passes.push(pass);
            m = m + 1;
        }
        passes
    }

    /// Ask every source about several labels at once, and rank each label's answers separately.
    ///
    /// One report per label, in the order the labels were given. Each source is asked once,
    /// through [`DiscoveryProvider::search_each`], in the order given, and recorded under its
    /// name with what it answered. A source that fails, or answers a number of questions it was
    /// not asked, is recorded as unavailable against every label, and the pass continues.
    pub fn across_each(&self, sources: &[&dyn DiscoveryProvider], queries: &[LabelQuery]) -> (passes:
        Vec<Discovered>)
        ensures
            passes@.len() == queries@.len(),
            exists|replies: Seq<SourceReply>|
                replies.len() == sources@.len() && #[trigger] tallies(
                    passes@,
                    replies,
                    queries@.len(),
                    self.limit(),
                ) && answered_by(replies, sources@, queries@),
    {
        let mut replies: Vec<SourceReply> = Vec::new();
        let mut i: usize = 0;
        while i < sources.len()
            invariant
                i <= sources@.len(),
                replies@.len() == i,
                forall|j: int| 0 <= j < i ==> #[trigger] replied(replies@[j], sources@[j], queries@),
            decreases sources@.len() - i,
        {
            let answers = sources[i].search_each(queries);
            let name = sources[i].name().to_owned();
            assert(replied(SourceReply { source: name, answers }, sources@[i as int], queries@));
            let ghost before = replies@;
            replies.push(SourceReply { source: name, answers });
            proof {
                assert forall|j: int| 0 <= j < replies@.len() implies #[trigger] replied(
                    replies@[j],
                    sources@[j],
                    queries@,
                ) by {
                    if j < i {
                        assert(replies@[j] == before[j]);
                    }
                }
            }
            i = i + 1;
        }
        assert(answered_by(replies@, sources@, queries@));
        let ghost gathered = replies@;
        let passes = self.tally(replies, queries.len());
        assert(gathered.len() == sources@.len());
        assert(tallies(passes@, gathered, queries@.len(), self.limit()));
        passes
    }

    /// Ask every source about one label and merge the answers: the pass [`Discovery::across_each`]
    /// makes for that one label.
    ///
    /// Sources are asked in the order given and each is asked exactly once. One that fails is
    /// recorded as unavailable and the pass continues.
    pub fn across(&self, sources: &[&dyn DiscoveryProvider], query: &LabelQuery) -> (pass: Discovered)
        ensures
            exists|replies: Seq<SourceReply>|
                replies.len() == sources@.len() && #[trigger] tallied(pass, replies, 1, 0, self.limit())
                    && answered_by(replies, sources@, seq![*query]),
    {
        let mut queries: Vec<LabelQuery> = Vec::new();
        queries.push(query.duplicate());
        assert(queries@ =~= seq![*query]);
        let mut passes = self.across_each(sources, queries.as_slice());
        let ghost all = passes@;
        match passes.pop() {
            Some(found) => {
                assert(all =~= seq![found]);
                found
            },
            None => {
                assert(false);
                self.finish(Vec::new(), Vec::new())
            },
        }
    }
}

/// `reply` is what `source` replied when asked about `queries`: under its name, with answers it
/// gives to them.
pub open spec fn replied<P: DiscoveryProvider + ?Sized>(
    reply: SourceReply,
    source: &P,
    queries: Seq<LabelQuery>,
) -> bool {
    reply.source@ == source.spec_name() && gives_each(source, queries, answers_view(reply.answers))
}

/// Each of `replies` is what the source in the same position replied when asked about
/// `queries`.
pub open spec fn answered_by(
    replies: Seq<SourceReply>,
    sources: Seq<&dyn DiscoveryProvider>,
    queries: Seq<LabelQuery>,
) -> bool {
    &&& replies.len() == sources.len()
    &&& forall|j: int| 0 <= j < replies.len() ==> #[trigger] replied(replies[j], sources[j], queries)
}

} // verus!
