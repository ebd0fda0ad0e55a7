//! The local store as a discovery source: the one source every deployment has.
//!
//! The provider reads through [`LocalCorpus`], which the composition root implements over the
//! real store, one part at a time: each part is read, searched for every label, and dropped, so
//! what discovery costs is bounded by the largest single part rather than by the store.

use vstd::prelude::*;

use crate::discovery::{answers_view, DiscoveryProvider, Match, SourceAnswer, Unavailable};
use crate::skos::{
    lemma_text_lt_transitive, lemma_text_lt_trichotomy, text_le, text_less, text_lt, LabelKind,
    LabelQuery, LexicalLabel, MatchQuality, Node,
};
use crate::text::{decimal, push_count, push_str, same_text, string_of};

verus! {

/// What kind of part of the store this is.
#[derive(Debug, Clone, Copy, PartialEq, Eq)]
pub enum PartKind {
    /// The vocabulary the new concept would go into.
    Home,
    /// Another vocabulary in the same store.
    Vocabulary,
    /// A change staged against a vocabulary and still waiting for a decision.
    Pending,
}

/// One part of the local store that can be searched.
#[derive(Debug, Clone, PartialEq, Eq)]
pub struct CorpusPart {
    /// Where the corpus reads this part from: its own identifier for it. Never interpreted here.
    pub at: String,
    /// What this part is called in a report.
    pub within: String,
    /// Which kind of part it is.
    pub kind: PartKind,
}

impl CorpusPart {
    /// A part of the store, of a given kind.
    pub fn new(at: &str, within: &str, kind: PartKind) -> (part: CorpusPart)
        ensures
            part.at@ == at@,
            part.within@ == within@,
            part.kind == kind,
    {
        CorpusPart { at: at.to_owned(), within: within.to_owned(), kind }
    }

    /// Another vocabulary in the store.
    pub fn elsewhere(at: &str, within: &str) -> (part: CorpusPart)
        ensures
            part.at@ == at@,
            part.within@ == within@,
            part.kind == PartKind::Vocabulary,
    {
        CorpusPart::new(at, within, PartKind::Vocabulary)
    }

    /// The vocabulary the new concept would go into.
    pub fn home(at: &str, within: &str) -> (part: CorpusPart)
        ensures
            part.at@ == at@,
            part.within@ == within@,
            part.kind == PartKind::Home,
    {
        CorpusPart::new(at, within, PartKind::Home)
    }

    /// A change waiting for a decision.
    pub fn pending(at: &str, within: &str) -> (part: CorpusPart)
        ensures
            part.at@ == at@,
            part.within@ == within@,
            part.kind == PartKind::Pending,
    {
        CorpusPart::new(at, within, PartKind::Pending)
    }

    /// Whether this is the vocabulary the new concept would go into.
    pub fn is_home(&self) -> (home: bool)
        ensures
            home == (self.kind == PartKind::Home),
    {
        match self.kind {
            PartKind::Home => true,
            _ => false,
        }
    }
}

/// One label a part of the store matched, with everything a report needs to name it.
#[derive(Debug, Clone, PartialEq, Eq)]
pub struct Hit {
    /// The resource the label belongs to.
    pub resource: Node,
    /// Its preferred label in that part, for display, if it has one.
    pub display: Option<String>,
    /// The label that matched.
    pub label: LexicalLabel,
    /// The best kind the label is held under.
    pub kind: Option<LabelKind>,
    /// How it matched.
    pub quality: MatchQuality,
}

/// What searching one part for one label found.
#[derive(Debug, Clone, PartialEq, Eq)]
pub struct PartSearch {
    /// The labels that matched.
    pub hits: Vec<Hit>,
    /// How many (resource, label) pairs were considered.
    pub labels_read: usize,
}

/// Where the local store's searchable parts come from.
///
/// Implemented at the composition root, over the real store. Both methods may fail, and both
/// failures are [`Unavailable`] rather than errors: a store that cannot be read is a source that
/// cannot answer. Each implementation says, through [`LocalCorpus::lists`] and
/// [`LocalCorpus::reads`], which results it gives; the local source relies on no more than that
/// every result it was handed is one of them.
pub trait LocalCorpus {
    /// Whether `parts` is a listing this corpus gives. An implementation that does not say
    /// claims nothing of its listings.
    open spec fn lists(&self, parts: Result<Seq<CorpusPart>, Unavailable>) -> bool {
        true
    }

    /// Whether `found` is what this corpus gives when `part` is searched for `queries`. An
    /// implementation that does not say claims nothing of its searches.
    open spec fn reads(
        &self,
        part: CorpusPart,
        queries: Seq<LabelQuery>,
        found: Result<Seq<PartSearch>, Unavailable>,
    ) -> bool {
        true
    }

    /// Every part worth searching, in the order a report should read them.
    fn parts(&self) -> (parts: Result<Vec<CorpusPart>, Unavailable>)
        ensures
            self.lists(listing_view(parts)),
    ;

    /// Read one part and search it for every query, one answer per query, in order; the part
    /// is dropped afterwards.
    fn search_part(&self, part: &CorpusPart, queries: &[LabelQuery]) -> (found: Result<
        Vec<PartSearch>,
        Unavailable,
    >)
        ensures
            self.reads(*part, queries@, read_view(found)),
    ;
}

/// A listing as a sequence.
pub open spec fn listing_view(parts: Result<Vec<CorpusPart>, Unavailable>) -> Result<
    Seq<CorpusPart>,
    Unavailable,
> {
    match parts {
        Ok(p) => Ok(p@),
        Err(u) => Err(u),
    }
}

/// A part's search as a sequence.
pub open spec fn read_view(found: Result<Vec<PartSearch>, Unavailable>) -> Result<
    Seq<PartSearch>,
    Unavailable,
> {
    match found {
        Ok(f) => Ok(f@),
        Err(u) => Err(u),
    }
}

/// Every part's search as a sequence.
pub open spec fn reads_view(reads: Seq<Result<Vec<PartSearch>, Unavailable>>) -> Seq<
    Result<Seq<PartSearch>, Unavailable>,
> {
    reads.map_values(|r: Result<Vec<PartSearch>, Unavailable>| read_view(r))
}

/// A part's search answered every one of `queries` labels.
pub open spec fn part_answered(found: Result<Seq<PartSearch>, Unavailable>, queries: nat) -> bool {
    found matches Ok(f) && f.len() == queries
}

/// The position of the first part whose search did not answer every label, or how many there
/// are when every one did.
pub open spec fn first_refusal(reads: Seq<Result<Seq<PartSearch>, Unavailable>>, queries: nat) -> int
    decreases reads.len(),
{
    if reads.len() == 0 {
        0
    } else if !part_answered(reads[0], queries) {
        0
    } else {
        1 + first_refusal(reads.drop_first(), queries)
    }
}

/// What each part's search found, a refused one as nothing.
pub open spec fn found_parts(reads: Seq<Result<Seq<PartSearch>, Unavailable>>) -> Seq<Seq<PartSearch>> {
    reads.map_values(|r: Result<Seq<PartSearch>, Unavailable>| match r {
        Ok(f) => f,
        Err(_) => Seq::empty(),
    })
}

/// Why a part that answered `found` of `queries` labels makes the source unavailable.
pub open spec fn misaligned_part(found: nat, queries: nat, within: Seq<char>) -> Seq<char> {
    "the local store answered "@ + decimal(found) + " of "@ + decimal(queries) + " label(s) from "@
        + within + ", so its answers cannot be told apart"@
}

/// Why a source that read more labels than a count can hold is unavailable.
pub const UNCOUNTABLE: &'static str = "the local store read more labels than can be counted, so its answer cannot be reported";

/// Some label's count of labels read is more than a count can hold.
pub open spec fn overflows(findings: Seq<Seq<PartSearch>>, queries: nat) -> bool {
    exists|k: int| 0 <= k < queries && #[trigger] labels_read_in(findings, k) > usize::MAX
}

/// `answers` is what the source `name` answers for `queries` labels, given the corpus's listing
/// and its searches of the parts listed, in order. A listing that failed is the answer; then the
/// first part that could not be read, or answered the wrong number of labels, is; then a count
/// that cannot be held; and otherwise every label is answered from every part.
pub open spec fn answered_from_reads(
    answers: Result<Seq<SourceAnswer>, Unavailable>,
    name: String,
    listing: Result<Seq<CorpusPart>, Unavailable>,
    reads: Seq<Result<Seq<PartSearch>, Unavailable>>,
    queries: nat,
) -> bool {
    match listing {
        Err(u) => answers == Err::<Seq<SourceAnswer>, Unavailable>(u),
        Ok(parts) => {
            let f = first_refusal(reads, queries);
            if f < reads.len() {
                match reads[f] {
                    Err(u) => answers == Err::<Seq<SourceAnswer>, Unavailable>(u),
                    Ok(found) => answers matches Err(e) && e.reason@ == misaligned_part(
                        found.len(),
                        queries,
                        parts[f].within@,
                    ),
                }
            } else if overflows(found_parts(reads), queries) {
                answers matches Err(e) && e.reason@ == UNCOUNTABLE@
            } else {
                answers matches Ok(a) && answers_from(a, name, parts, found_parts(reads), queries)
            }
        },
    }
}

/// The parts were read in the order `corpus` listed them, each for every one of `queries`, and
/// the reading stopped at the first part that could not be read or answered the wrong number of
/// labels, and nowhere else: a part is never skipped.
pub open spec fn read_in_order<C: LocalCorpus + ?Sized>(
    corpus: &C,
    listing: Result<Seq<CorpusPart>, Unavailable>,
    reads: Seq<Result<Seq<PartSearch>, Unavailable>>,
    queries: Seq<LabelQuery>,
) -> bool {
    &&& corpus.lists(listing)
    &&& listing is Err ==> reads.len() == 0
    &&& listing matches Ok(parts) ==> {
        &&& reads.len() <= parts.len()
        &&& forall|i: int| 0 <= i < reads.len() ==> corpus.reads(parts[i], queries, #[trigger] reads[i])
        &&& first_refusal(reads, queries.len()) >= reads.len() - 1
        &&& reads.len() < parts.len() ==> first_refusal(reads, queries.len()) < reads.len()
    }
}

proof fn lemma_first_refusal(reads: Seq<Result<Seq<PartSearch>, Unavailable>>, queries: nat, i: int)
    requires
        0 <= i <= reads.len(),
        forall|j: int| 0 <= j < i ==> part_answered(#[trigger] reads[j], queries),
        i < reads.len() ==> !part_answered(reads[i], queries),
    ensures
        first_refusal(reads, queries) == i,
    decreases i,
{
    if i > 0 {
        assert forall|j: int| 0 <= j < i - 1 implies part_answered(
            #[trigger] reads.drop_first()[j],
            queries,
        ) by {
            assert(reads.drop_first()[j] == reads[j + 1]);
        }
        assert(part_answered(reads[0], queries));
        lemma_first_refusal(reads.drop_first(), queries, i - 1);
    }
}

/// Discovery over the vocabularies, and pending changes, of the local store.
pub struct LocalVocabularies<'a> {
    corpus: &'a dyn LocalCorpus,
    name: String,
}

/// The report's ending for a count of vocabularies: "y" for one, "ies" otherwise.
pub open spec fn plural_ending(count: nat) -> Seq<char> {
    if count == 1 {
        "y"@
    } else {
        "ies"@
    }
}

/// What a pass over `vocabularies` vocabularies and `pending` waiting changes looked at.
pub open spec fn searched_text(vocabularies: nat, pending: nat) -> Seq<char> {
    if pending == 0 {
        decimal(vocabularies) + " vocabular"@ + plural_ending(vocabularies)
    } else {
        decimal(vocabularies) + " vocabular"@ + plural_ending(vocabularies) + " and "@ + decimal(
            pending,
        ) + " change(s) waiting for a decision"@
    }
}

/// English, so a report does not print "1 vocabularies".
pub fn plural(count: usize) -> (ending: &'static str)
    ensures
        ending@ == plural_ending(count as nat),
{
    if count == 1 {
        "y"
    } else {
        "ies"
    }
}

/// What the pass looked at, in the words a report prints.
pub fn searched(vocabularies: usize, pending: usize) -> (text: String)
    ensures
        text@ == searched_text(vocabularies as nat, pending as nat),
{
    let mut out = String::new();
    push_count(&mut out, vocabularies);
    push_str(&mut out, " vocabular");
    push_str(&mut out, plural(vocabularies));
    if pending != 0 {
        push_str(&mut out, " and ");
        push_count(&mut out, pending);
        push_str(&mut out, " change(s) waiting for a decision");
    }
    out
}

/// How many of `parts` are vocabularies: the home one or another.
pub open spec fn vocabularies_in(parts: Seq<CorpusPart>) -> nat
    decreases parts.len(),
{
    if parts.len() == 0 {
        0
    } else {
        vocabularies_in(parts.drop_last()) + if parts.last().kind == PartKind::Pending {
            0nat
        } else {
            1nat
        }
    }
}

/// How many of `parts` are changes waiting for a decision.
pub open spec fn pending_in(parts: Seq<CorpusPart>) -> nat
    decreases parts.len(),
{
    if parts.len() == 0 {
        0
    } else {
        pending_in(parts.drop_last()) + if parts.last().kind == PartKind::Pending {
            1nat
        } else {
            0nat
        }
    }
}

/// The match a report makes of `hit`, found by the source `name` in `part`.
pub open spec fn as_match(name: String, part: CorpusPart, hit: Hit) -> Match {
    Match {
        source: name,
        within: part.within,
        home: part.kind == PartKind::Home,
        resource: hit.resource,
        display: hit.display,
        label: hit.label,
        kind: hit.kind,
        quality: hit.quality,
    }
}

/// The matches `hits` make, in order.
pub open spec fn matches_of(name: String, part: CorpusPart, hits: Seq<Hit>) -> Seq<Match>
    decreases hits.len(),
{
    if hits.len() == 0 {
        Seq::empty()
    } else {
        matches_of(name, part, hits.drop_last()).push(as_match(name, part, hits.last()))
    }
}

/// Each hit in a part makes one match, in order, carrying the source's name, the part's
/// description and everything the hit says; and the match is at home exactly when the part is the
/// home vocabulary, so a label in another vocabulary or in a change waiting for a decision is
/// never reported as a duplicate inside the vocabulary being authored.
pub proof fn lemma_home_only_from_the_home_vocabulary(name: String, part: CorpusPart, hits: Seq<Hit>)
    ensures
        matches_of(name, part, hits).len() == hits.len(),
        forall|i: int|
            0 <= i < hits.len() ==> ((#[trigger] matches_of(name, part, hits)[i]).home <==> part.kind
                == PartKind::Home),
        forall|i: int|
            0 <= i < hits.len() ==> {
                &&& (#[trigger] matches_of(name, part, hits)[i]).source == name
                &&& matches_of(name, part, hits)[i].within == part.within
                &&& matches_of(name, part, hits)[i].resource == hits[i].resource
                &&& matches_of(name, part, hits)[i].display == hits[i].display
                &&& matches_of(name, part, hits)[i].label == hits[i].label
                &&& matches_of(name, part, hits)[i].kind == hits[i].kind
                &&& matches_of(name, part, hits)[i].quality == hits[i].quality
            },
    decreases hits.len(),
{
    if hits.len() > 0 {
        lemma_home_only_from_the_home_vocabulary(name, part, hits.drop_last());
    }
}

/// Across every part searched: where no part is the home vocabulary, no match for a label is at
/// home; where every part is, every match is.
pub proof fn lemma_home_follows_the_parts(
    name: String,
    parts: Seq<CorpusPart>,
    findings: Seq<Seq<PartSearch>>,
    k: int,
)
    ensures
        (forall|p: int| 0 <= p < parts.len() ==> (#[trigger] parts[p]).kind != PartKind::Home) ==> (
        forall|i: int|
            0 <= i < found_in(name, parts, findings, k).len() ==> !(#[trigger] found_in(
                name,
                parts,
                findings,
                k,
            )[i]).home),
        (forall|p: int| 0 <= p < parts.len() ==> (#[trigger] parts[p]).kind == PartKind::Home) ==> (
        forall|i: int|
            0 <= i < found_in(name, parts, findings, k).len() ==> (#[trigger] found_in(
                name,
                parts,
                findings,
                k,
            )[i]).home),
    decreases parts.len(),
{
    if parts.len() > 0 && findings.len() > 0 {
        let before = found_in(name, parts.drop_last(), findings.drop_last(), k);
        let last = findings.last()[k].hits@;
        lemma_home_follows_the_parts(name, parts.drop_last(), findings.drop_last(), k);
        lemma_home_only_from_the_home_vocabulary(name, parts.last(), last);
        let all = found_in(name, parts, findings, k);
        assert(all == before + matches_of(name, parts.last(), last));
        if forall|p: int| 0 <= p < parts.len() ==> (#[trigger] parts[p]).kind != PartKind::Home {
            assert(parts.last() == parts[parts.len() - 1]);
            assert forall|p: int| 0 <= p < parts.drop_last().len() implies (
            #[trigger] parts.drop_last()[p]).kind != PartKind::Home by {
                assert(parts.drop_last()[p] == parts[p]);
            }
            assert forall|i: int| 0 <= i < all.len() implies !(#[trigger] all[i]).home by {
                if i >= before.len() {
                    assert(all[i] == matches_of(name, parts.last(), last)[i - before.len()]);
                }
            }
        }
        if forall|p: int| 0 <= p < parts.len() ==> (#[trigger] parts[p]).kind == PartKind::Home {
            assert(parts.last() == parts[parts.len() - 1]);
            assert forall|p: int| 0 <= p < parts.drop_last().len() implies (
            #[trigger] parts.drop_last()[p]).kind == PartKind::Home by {
                assert(parts.drop_last()[p] == parts[p]);
            }
            assert forall|i: int| 0 <= i < all.len() implies (#[trigger] all[i]).home by {
                if i >= before.len() {
                    assert(all[i] == matches_of(name, parts.last(), last)[i - before.len()]);
                }
            }
        }
    }
}

/// Every match for the label at position `k`, part after part.
pub open spec fn found_in(
    name: String,
    parts: Seq<CorpusPart>,
    findings: Seq<Seq<PartSearch>>,
    k: int,
) -> Seq<Match>
    decreases parts.len(),
{
    if parts.len() == 0 || findings.len() == 0 {
        Seq::empty()
    } else {
        found_in(name, parts.drop_last(), findings.drop_last(), k) + matches_of(
            name,
            parts.last(),
            findings.last()[k].hits@,
        )
    }
}

/// How many (resource, label) pairs were read for the label at position `k`, over every part.
pub open spec fn labels_read_in(findings: Seq<Seq<PartSearch>>, k: int) -> nat
    decreases findings.len(),
{
    if findings.len() == 0 {
        0
    } else {
        labels_read_in(findings.drop_last(), k) + findings.last()[k].labels_read as nat
    }
}

/// The searches each part returned, as sequences.
pub open spec fn views_of(findings: Seq<Vec<PartSearch>>) -> Seq<Seq<PartSearch>> {
    findings.map_values(|f: Vec<PartSearch>| f@)
}

/// Every part's search holds one answer per query.
pub open spec fn aligned(findings: Seq<Seq<PartSearch>>, queries: nat) -> bool {
    forall|p: int| 0 <= p < findings.len() ==> (#[trigger] findings[p]).len() == queries
}

/// `answers` are what the source `name` reports for `queries` labels, from `findings` over
/// `parts`.
pub open spec fn answers_from(
    answers: Seq<SourceAnswer>,
    name: String,
    parts: Seq<CorpusPart>,
    findings: Seq<Seq<PartSearch>>,
    queries: nat,
) -> bool {
    &&& answers.len() == queries
    &&& forall|k: int|
        0 <= k < queries ==> {
            &&& (#[trigger] answers[k]).matches@ == found_in(name, parts, findings, k)
            &&& answers[k].searched@ == searched_text(vocabularies_in(parts), pending_in(parts))
            &&& answers[k].labels_read == labels_read_in(findings, k)
        }
}

/// Counting over one more part counts it once, by its kind.
proof fn lemma_counts_fit(parts: Seq<CorpusPart>)
    ensures
        vocabularies_in(parts) + pending_in(parts) == parts.len(),
    decreases parts.len(),
{
    if parts.len() > 0 {
        lemma_counts_fit(parts.drop_last());
    }
}

impl<'a> LocalVocabularies<'a> {
    /// The name this source reports under.
    pub closed spec fn source_name(self) -> String {
        self.name
    }

    /// This source's corpus listed `listing`, and its parts were then read in order for
    /// `queries`, giving `reads`: see [`read_in_order`].
    pub closed spec fn corpus_read(
        self,
        listing: Result<Seq<CorpusPart>, Unavailable>,
        reads: Seq<Result<Seq<PartSearch>, Unavailable>>,
        queries: Seq<LabelQuery>,
    ) -> bool {
        read_in_order(self.corpus, listing, reads, queries)
    }

    /// Search `corpus`, under the name `name` in reports.
    pub fn named(name: &str, corpus: &'a dyn LocalCorpus) -> (source: LocalVocabularies<'a>)
        ensures
            source.source_name()@ == name@,
    {
        LocalVocabularies { corpus, name: name.to_owned() }
    }

    /// The answers to `queries`, from every part of the corpus already searched.
    ///
    /// Every match carries this source's name, the part it was found in and whether that is the
    /// home vocabulary; the description counts the vocabularies and the waiting changes read.
    pub fn answer_from(&self, parts: &Vec<CorpusPart>, findings: Vec<Vec<PartSearch>>, queries: usize) -> (answers:
        Vec<SourceAnswer>)
        requires
            findings@.len() == parts@.len(),
            aligned(views_of(findings@), queries as nat),
            forall|k: int|
                0 <= k < queries ==> #[trigger] labels_read_in(
                    views_of(findings@),
                    k,
                ) <= usize::MAX,
        ensures
            answers_from(
                answers@,
                self.source_name(),
                parts@,
                views_of(findings@),
                queries as nat,
            ),
    {
        let ghost all = views_of(findings@);
        let mut lists: Vec<Vec<Match>> = Vec::new();
        let mut read: Vec<usize> = Vec::new();
        let mut k: usize = 0;
        while k < queries
            invariant
                k <= queries,
                lists@.len() == k,
                read@.len() == k,
                forall|m: int| 0 <= m < k ==> (#[trigger] lists@[m])@ == Seq::<Match>::empty(),
                forall|m: int| 0 <= m < k ==> #[trigger] read@[m] == 0,
            decreases queries - k,
        {
            lists.push(Vec::new());
            read.push(0);
            k = k + 1;
        }
        let mut vocabularies: usize = 0;
        let mut pending: usize = 0;
        let mut rest = findings;
        let mut p: usize = 0;
        let total = parts.len();
        proof {
            lemma_counts_fit(parts@);
        }
        while p < total
            invariant
                total == parts@.len(),
                p <= total,
                all.len() == total,
                rest@.len() == total - p,
                forall|q: int| 0 <= q < rest@.len() ==> (#[trigger] rest@[q])@ == all[p + q],
                aligned(all, queries as nat),
                forall|m: int| 0 <= m < queries ==> #[trigger] labels_read_in(all, m) <= usize::MAX,
                lists@.len() == queries,
                read@.len() == queries,
                forall|m: int|
                    0 <= m < queries ==> (#[trigger] lists@[m])@ == found_in(
                        self.name,
                        parts@.take(p as int),
                        all.take(p as int),
                        m,
                    ),
                forall|m: int|
                    0 <= m < queries ==> #[trigger] read@[m] == labels_read_in(all.take(p as int), m),
                vocabularies == vocabularies_in(parts@.take(p as int)),
                pending == pending_in(parts@.take(p as int)),
                vocabularies_in(parts@) + pending_in(parts@) == parts@.len(),
            decreases total - p,
        {
            let part = &parts[p];
            let found = rest.remove(0);
            proof {
                assert(found@ == all[p as int]);
                assert(parts@.take(p + 1).drop_last() =~= parts@.take(p as int));
                assert(all.take(p + 1).drop_last() =~= all.take(p as int));
                assert(parts@.take(p + 1).last() == parts@[p as int]);
                assert(all.take(p + 1).last() == all[p as int]);
                lemma_counts_fit(parts@.take(p + 1));
                lemma_labels_read_prefix(all, p + 1);
                assert forall|n: int| 0 <= n < queries implies read@[n] + all[p as int][n].labels_read
                    <= usize::MAX by {
                    assert(labels_read_in(all.take(p + 1), n) == labels_read_in(all.take(p as int), n)
                        + all[p as int][n].labels_read);
                    assert(labels_read_in(all.take(p + 1), n) <= labels_read_in(all, n));
                    assert(labels_read_in(all, n) <= usize::MAX);
                    assert(read@[n] == labels_read_in(all.take(p as int), n));
                }
            }
            match part.kind {
                PartKind::Pending => pending = pending + 1,
                _ => vocabularies = vocabularies + 1,
            }
            let home = part.is_home();
            let ghost before_lists = lists@;
            let ghost before_read = read@;
            let mut answers = found;
            let mut m: usize = 0;
            while m < queries
                invariant
                    m <= queries,
                    answers@.len() == queries - m,
                    forall|q: int| 0 <= q < answers@.len() ==> #[trigger] answers@[q] == all[p as int][m + q],
                    all[p as int].len() == queries,
                    p < total,
                    total == parts@.len(),
                    home == (parts@[p as int].kind == PartKind::Home),
                    *part == parts@[p as int],
                    lists@.len() == queries,
                    read@.len() == queries,
                    forall|n: int| m <= n < queries ==> (#[trigger] lists@[n]) == before_lists[n],
                    forall|n: int| m <= n < queries ==> #[trigger] read@[n] == before_read[n],
                    forall|n: int|
                        0 <= n < m ==> (#[trigger] lists@[n])@ == before_lists[n]@ + matches_of(
                            self.name,
                            parts@[p as int],
                            all[p as int][n].hits@,
                        ),
                    forall|n: int|
                        0 <= n < m ==> #[trigger] read@[n] == before_read[n]
                            + all[p as int][n].labels_read,
                    forall|n: int|
                        0 <= n < queries ==> before_read[n] + all[p as int][n].labels_read
                            <= usize::MAX,
                decreases queries - m,
            {
                let search = answers.remove(0);
                proof {
                    assert(search == all[p as int][m as int]);
                }
                let PartSearch { hits, labels_read } = search;
                let ghost given_hits = hits@;
                let mut left = hits;
                let mut h: usize = 0;
                let hit_count = left.len();
                let mut batch: Vec<Match> = Vec::new();
                while h < hit_count
                    invariant
                        hit_count == given_hits.len(),
                        h <= hit_count,
                        left@ == given_hits.skip(h as int),
                        m < queries,
                        lists@.len() == queries,
                        home == (parts@[p as int].kind == PartKind::Home),
                        p < parts@.len(),
                        *part == parts@[p as int],
                        batch@ == matches_of(
                            self.name,
                            parts@[p as int],
                            given_hits.take(h as int),
                        ),
                    decreases hit_count - h,
                {
                    let hit = left.remove(0);
                    proof {
                        assert(hit == given_hits[h as int]);
                        assert(given_hits.take(h + 1).drop_last() =~= given_hits.take(h as int));
                        assert(given_hits.take(h + 1).last() == given_hits[h as int]);
                    }
                    let Hit { resource, display, label, kind, quality } = hit;
                    let found_match = Match {
                        source: self.name.clone(),
                        within: part.within.clone(),
                        home,
                        resource,
                        display,
                        label,
                        kind,
                        quality,
                    };
                    batch.push(found_match);
                    h = h + 1;
                    proof {
                        assert(left@ =~= given_hits.skip(h as int));
                    }
                }
                proof {
                    assert(given_hits.take(h as int) =~= given_hits);
                }
                lists[m].append(&mut batch);
                read.set(m, read[m] + labels_read);
                m = m + 1;
                proof {
                    assert forall|q: int| 0 <= q < answers@.len() implies #[trigger] answers@[q]
                        == all[p as int][m + q] by {}
                }
            }
            p = p + 1;
            proof {
                assert forall|q: int| 0 <= q < rest@.len() implies (#[trigger] rest@[q])@ == all[p
                    + q] by {}
            }
        }
        proof {
            assert(parts@.take(p as int) =~= parts@);
            assert(all.take(p as int) =~= all);
        }
        let text = searched(vocabularies, pending);
        let mut out: Vec<SourceAnswer> = Vec::new();
        let mut m: usize = 0;
        let mut lists = lists;
        while m < queries
            invariant
                m <= queries,
                lists@.len() == queries - m,
                read@.len() == queries,
                forall|q: int|
                    0 <= q < lists@.len() ==> (#[trigger] lists@[q])@ == found_in(
                        self.name,
                        parts@,
                        all,
                        m + q,
                    ),
                forall|n: int| 0 <= n < queries ==> #[trigger] read@[n] == labels_read_in(all, n),
                text@ == searched_text(vocabularies_in(parts@), pending_in(parts@)),
                out@.len() == m,
                forall|n: int|
                    0 <= n < m ==> {
                        &&& (#[trigger] out@[n]).matches@ == found_in(self.name, parts@, all, n)
                        &&& out@[n].searched@ == searched_text(
                            vocabularies_in(parts@),
                            pending_in(parts@),
                        )
                        &&& out@[n].labels_read == labels_read_in(all, n)
                    },
            decreases queries - m,
        {
            let matches = lists.remove(0);
            out.push(SourceAnswer { matches, searched: text.clone(), labels_read: read[m] });
            m = m + 1;
            proof {
                assert forall|q: int| 0 <= q < lists@.len() implies (#[trigger] lists@[q])@
                    == found_in(self.name, parts@, all, m + q) by {}
            }
        }
        out
    }
}

/// How many labels were read for the label at position `k`, over every part, if that count fits.
fn total_read(findings: &Vec<Vec<PartSearch>>, k: usize, queries: usize) -> (total: Option<usize>)
    requires
        aligned(views_of(findings@), queries as nat),
        k < queries,
    ensures
        total matches Some(t) ==> t == labels_read_in(views_of(findings@), k as int),
        total is None ==> labels_read_in(views_of(findings@), k as int) > usize::MAX,
{
    let ghost all = views_of(findings@);
    let mut sum: usize = 0;
    let mut p: usize = 0;
    while p < findings.len()
        invariant
            p <= findings@.len(),
            all == views_of(findings@),
            aligned(all, queries as nat),
            k < queries,
            sum == labels_read_in(all.take(p as int), k as int),
        decreases findings@.len() - p,
    {
        proof {
            assert(all.take(p + 1).drop_last() =~= all.take(p as int));
            assert(all[p as int] == findings@[p as int]@);
            assert(all[p as int].len() == queries);
        }
        let read = findings[p][k].labels_read;
        match sum.checked_add(read) {
            Some(next) => sum = next,
            None => {
                proof {
                    lemma_labels_read_prefix(all, p + 1);
                }
                return None;
            },
        }
        p = p + 1;
    }
    proof {
        assert(all.take(p as int) =~= all);
    }
    Some(sum)
}

impl<'a> LocalVocabularies<'a> {
    /// What the source answers, given what the corpus gave: its listing, and its searches of the
    /// parts listed, in order, stopping at the first part that could not be read or answered the
    /// wrong number of labels.
    ///
    /// A listing that failed is the answer. So is the first part that failed, with its reason,
    /// or that answered the wrong number of labels, saying so; a part is never skipped, because
    /// a shorter answer would look exactly like a complete one. Then a count of labels read that
    /// cannot be held is refused. Otherwise every label is answered from every part.
    pub fn answer_from_reads(
        &self,
        listing: Result<Vec<CorpusPart>, Unavailable>,
        reads: Vec<Result<Vec<PartSearch>, Unavailable>>,
        queries: usize,
    ) -> (answers: Result<Vec<SourceAnswer>, Unavailable>)
        requires
            listing matches Ok(parts) ==> reads@.len() <= parts@.len() && (reads@.len()
                < parts@.len() ==> first_refusal(reads_view(reads@), queries as nat)
                < reads@.len()),
        ensures
            answered_from_reads(
                answers_view(answers),
                self.source_name(),
                listing_view(listing),
                reads_view(reads@),
                queries as nat,
            ),
    {
        let parts = match listing {
            Err(unavailable) => return Err(unavailable),
            Ok(parts) => parts,
        };
        let ghost given = reads_view(reads@);
        let total = reads.len();
        let mut rest = reads;
        let mut findings: Vec<Vec<PartSearch>> = Vec::new();
        let mut i: usize = 0;
        while rest.len() > 0
            invariant
                i + rest@.len() == total,
                total == given.len(),
                total <= parts@.len(),
                listing_view(listing) == Ok::<Seq<CorpusPart>, Unavailable>(parts@),
                given == reads_view(reads@),
                reads_view(rest@) == given.skip(i as int),
                findings@.len() == i,
                views_of(findings@) == found_parts(given).take(i as int),
                aligned(views_of(findings@), queries as nat),
                forall|j: int| 0 <= j < i ==> part_answered(#[trigger] given[j], queries as nat),
            decreases rest@.len(),
        {
            let ghost old_rest = rest@;
            let read = rest.remove(0);
            proof {
                assert(rest@ =~= old_rest.drop_first());
                assert(read == old_rest[0]);
                assert(reads_view(old_rest)[0] == read_view(old_rest[0]));
                assert(given.skip(i as int)[0] == given[i as int]);
                assert(given[i as int] == read_view(read));
                assert forall|j: int| 0 <= j < reads_view(rest@).len() implies reads_view(rest@)[j]
                    == given.skip(i + 1)[j] by {
                    assert(reads_view(rest@)[j] == read_view(rest@[j]));
                    assert(rest@[j] == old_rest[j + 1]);
                    assert(reads_view(old_rest)[j + 1] == read_view(old_rest[j + 1]));
                    assert(given.skip(i as int)[j + 1] == given[i + 1 + j]);
                }
                assert(reads_view(rest@) =~= given.skip(i + 1));
            }
            match read {
                Err(unavailable) => {
                    proof {
                        lemma_first_refusal(given, queries as nat, i as int);
                        assert(first_refusal(given, queries as nat) == i);
                        assert(given[i as int] == Err::<Seq<PartSearch>, Unavailable>(unavailable));
                        assert(listing_view(listing) == Ok::<Seq<CorpusPart>, Unavailable>(parts@));
                    }
                    return Err(unavailable);
                },
                Ok(found) => {
                    if found.len() != queries {
                        proof {
                            lemma_first_refusal(given, queries as nat, i as int);
                        }
                        let mut reason = string_of("the local store answered ");
                        push_count(&mut reason, found.len());
                        push_str(&mut reason, " of ");
                        push_count(&mut reason, queries);
                        push_str(&mut reason, " label(s) from ");
                        push_str(&mut reason, parts[i].within.as_str());
                        push_str(&mut reason, ", so its answers cannot be told apart");
                        return Err(Unavailable { reason });
                    }
                    let ghost before = findings@;
                    findings.push(found);
                    proof {
                        assert(views_of(findings@) =~= found_parts(given).take(i + 1));
                        assert forall|q: int| 0 <= q < views_of(findings@).len() implies (
                        #[trigger] views_of(findings@)[q]).len() == queries by {
                            assert(views_of(findings@)[q] == findings@[q]@);
                            if q < i {
                                assert(findings@[q] == before[q]);
                                assert(views_of(before)[q] == before[q]@);
                            }
                        }
                    }
                },
            }
            i = i + 1;
        }
        proof {
            lemma_first_refusal(given, queries as nat, i as int);
            assert(found_parts(given).take(i as int) =~= found_parts(given));
        }
        let ghost all = views_of(findings@);
        let mut k: usize = 0;
        while k < queries
            invariant
                k <= queries,
                findings@.len() == parts@.len(),
                all == views_of(findings@),
                all == found_parts(given),
                given == reads_view(reads@),
                listing_view(listing) == Ok::<Seq<CorpusPart>, Unavailable>(parts@),
                first_refusal(given, queries as nat) == given.len(),
                aligned(all, queries as nat),
                forall|m: int| 0 <= m < k ==> #[trigger] labels_read_in(all, m) <= usize::MAX,
            decreases queries - k,
        {
            match total_read(&findings, k, queries) {
                Some(_) => {},
                None => {
                    assert(labels_read_in(all, k as int) > usize::MAX);
                    assert(overflows(found_parts(given), queries as nat));
                    return Err(Unavailable::because(UNCOUNTABLE));
                },
            }
            k = k + 1;
        }
        let answers = self.answer_from(&parts, findings, queries);
        Ok(answers)
    }

    /// Read the corpus **once** and answer every query from each part while it is in hand.
    ///
    /// The parts are read in the order the corpus lists them, each for every query, stopping at
    /// the first that cannot be read or answers the wrong number of labels.
    fn answer(&self, queries: &[LabelQuery]) -> (answers: Result<Vec<SourceAnswer>, Unavailable>)
        ensures
            exists|listing: Result<Seq<CorpusPart>, Unavailable>, reads: Seq<Result<Seq<PartSearch>, Unavailable>>|
                #[trigger] read_in_order(self.corpus, listing, reads, queries@)
                    && answered_from_reads(
                    answers_view(answers),
                    self.name,
                    listing,
                    reads,
                    queries@.len(),
                ),
    {
        let listing = self.corpus.parts();
        let ghost listed = listing_view(listing);
        assert(self.corpus.lists(listed));
        let parts = match listing {
            Err(unavailable) => {
                let answers = self.answer_from_reads(Err(unavailable), Vec::new(), queries.len());
                proof {
                    let none = reads_view(Seq::<Result<Vec<PartSearch>, Unavailable>>::empty());
                    assert(none =~= Seq::empty());
                    assert(self.corpus.lists(listed));
                    assert(listed is Err);
                    assert(none.len() == 0);
                    assert(read_in_order(self.corpus, listed, none, queries@));
                }
                return answers;
            },
            Ok(parts) => parts,
        };
        let mut reads: Vec<Result<Vec<PartSearch>, Unavailable>> = Vec::new();
        let mut stopped = false;
        while !stopped && reads.len() < parts.len()
            invariant
                listed == Ok::<Seq<CorpusPart>, Unavailable>(parts@),
                reads@.len() <= parts@.len(),
                forall|i: int|
                    0 <= i < reads@.len() ==> self.corpus.reads(
                        parts@[i],
                        queries@,
                        #[trigger] reads_view(reads@)[i],
                    ),
                !stopped ==> forall|i: int|
                    0 <= i < reads@.len() ==> part_answered(
                        #[trigger] reads_view(reads@)[i],
                        queries@.len(),
                    ),
                stopped ==> reads@.len() > 0 && !part_answered(
                    reads_view(reads@)[reads@.len() - 1],
                    queries@.len(),
                ) && forall|i: int|
                    0 <= i < reads@.len() - 1 ==> part_answered(
                        #[trigger] reads_view(reads@)[i],
                        queries@.len(),
                    ),
            decreases parts@.len() - reads@.len(),
        {
            let at = reads.len();
            let found = self.corpus.search_part(&parts[at], queries);
            let answered = match &found {
                Ok(f) => f.len() == queries.len(),
                Err(_) => false,
            };
            let ghost before = reads@;
            let ghost fv = read_view(found);
            assert(self.corpus.reads(parts@[at as int], queries@, fv));
            assert(answered == part_answered(fv, queries@.len()));
            reads.push(found);
            proof {
                assert(reads_view(reads@)[at as int] == read_view(reads@[at as int]));
                assert(reads_view(reads@)[at as int] == fv);
                assert forall|i: int| 0 <= i < before.len() implies reads_view(reads@)[i]
                    == reads_view(before)[i] by {
                    assert(reads_view(reads@)[i] == read_view(reads@[i]));
                    assert(reads_view(before)[i] == read_view(before[i]));
                }
                assert forall|i: int| 0 <= i < reads@.len() implies self.corpus.reads(
                    parts@[i],
                    queries@,
                    #[trigger] reads_view(reads@)[i],
                ) by {
                    if i < before.len() {
                        assert(reads_view(reads@)[i] == reads_view(before)[i]);
                    }
                }
                assert(answered ==> forall|i: int|
                    0 <= i < reads@.len() ==> part_answered(
                        #[trigger] reads_view(reads@)[i],
                        queries@.len(),
                    )) by {
                    assert forall|i: int| answered && 0 <= i < reads@.len() implies part_answered(
                        #[trigger] reads_view(reads@)[i],
                        queries@.len(),
                    ) by {
                        if i < before.len() {
                            assert(reads_view(reads@)[i] == reads_view(before)[i]);
                        }
                    }
                }
                assert forall|i: int| 0 <= i < reads@.len() - 1 implies part_answered(
                    #[trigger] reads_view(reads@)[i],
                    queries@.len(),
                ) by {
                    assert(reads_view(reads@)[i] == reads_view(before)[i]);
                }
            }
            if !answered {
                stopped = true;
            }
        }
        proof {
            let rv = reads_view(reads@);
            lemma_first_refusal(rv, queries@.len(), if stopped { rv.len() - 1 } else { rv.len() as int });
            assert(read_in_order(self.corpus, listed, rv, queries@));
        }
        self.answer_from_reads(Ok(parts), reads, queries.len())
    }

    /// The answers of one batch, for the label at position `k`, are what this source gives for
    /// that label.
    proof fn lemma_gives(
        &self,
        listing: Result<Seq<CorpusPart>, Unavailable>,
        reads: Seq<Result<Seq<PartSearch>, Unavailable>>,
        queries: Seq<LabelQuery>,
        batch: Result<Seq<SourceAnswer>, Unavailable>,
        k: int,
    )
        requires
            read_in_order(self.corpus, listing, reads, queries),
            answered_from_reads(batch, self.name, listing, reads, queries.len()),
            0 <= k < queries.len(),
        ensures
            match batch {
                Ok(a) => a.len() == queries.len() && self.gives(queries[k], Ok(a[k])),
                Err(u) => self.gives(queries[k], Err(u)),
            },
    {
        match batch {
            Ok(a) => {
                let parts = listing->Ok_0;
                assert(answers_from(a, self.name, parts, found_parts(reads), queries.len()));
                assert(self.gives(queries[k], Ok(a[k])));
            },
            Err(u) => {
                assert(self.gives(queries[k], Err(u)));
            },
        }
    }
}

/// One answer as a batch of one.
pub open spec fn single_view(answer: Result<SourceAnswer, Unavailable>) -> Result<
    Seq<SourceAnswer>,
    Unavailable,
> {
    match answer {
        Ok(a) => Ok(seq![a]),
        Err(u) => Err(u),
    }
}

impl<'a> DiscoveryProvider for LocalVocabularies<'a> {
    closed spec fn spec_name(&self) -> Seq<char> {
        self.name@
    }

    /// The local source gives, for a label, what it answers for that label in any reading of
    /// its corpus in order, for any batch of labels holding it.
    closed spec fn gives(&self, query: LabelQuery, answer: Result<SourceAnswer, Unavailable>) -> bool {
        exists|
            listing: Result<Seq<CorpusPart>, Unavailable>,
            reads: Seq<Result<Seq<PartSearch>, Unavailable>>,
            queries: Seq<LabelQuery>,
            batch: Result<Seq<SourceAnswer>, Unavailable>,
            k: int,
        |
            #![trigger read_in_order(self.corpus, listing, reads, queries), answered_from_reads(batch, self.name, listing, reads, queries.len()), queries[k]]
            0 <= k < queries.len() && queries[k] == query && read_in_order(
                self.corpus,
                listing,
                reads,
                queries,
            ) && answered_from_reads(batch, self.name, listing, reads, queries.len()) && match batch {
                Ok(a) => answer == Ok::<SourceAnswer, Unavailable>(a[k]),
                Err(u) => answer == Err::<SourceAnswer, Unavailable>(u),
            }
    }

    fn name(&self) -> (name: &str) {
        self.name.as_str()
    }

    fn search(&self, query: &LabelQuery) -> (answer: Result<SourceAnswer, Unavailable>)
        ensures
            exists|listing: Result<Seq<CorpusPart>, Unavailable>, reads: Seq<Result<Seq<PartSearch>, Unavailable>>|
                #[trigger] self.corpus_read(listing, reads, seq![*query])
                    && answered_from_reads(
                    single_view(answer),
                    self.source_name(),
                    listing,
                    reads,
                    1,
                ),
    {
        let mut queries: Vec<LabelQuery> = Vec::new();
        queries.push(query.duplicate());
        assert(queries@ =~= seq![*query]);
        let batch = self.answer(queries.as_slice());
        let ghost batch_view = answers_view(batch);
        let ghost (listing, reads) = choose|
            listing: Result<Seq<CorpusPart>, Unavailable>,
            reads: Seq<Result<Seq<PartSearch>, Unavailable>>,
        |
            #[trigger] read_in_order(self.corpus, listing, reads, queries@) && answered_from_reads(
                batch_view,
                self.name,
                listing,
                reads,
                1,
            );
        proof {
            self.lemma_gives(listing, reads, queries@, batch_view, 0);
            assert(self.corpus_read(listing, reads, seq![*query]));
        }
        match batch {
            Ok(answers) => {
                let mut answers = answers;
                let ghost all = answers@;
                match answers.pop() {
                    Some(answer) => {
                        assert(all =~= seq![answer]);
                        let found: Result<SourceAnswer, Unavailable> = Ok(answer);
                        assert(single_view(found) == batch_view);
                        found
                    },
                    None => {
                        assert(false);
                        Err(
                            Unavailable::because(
                                "the local store returned no answer to the one label it was asked",
                            ),
                        )
                    },
                }
            },
            Err(unavailable) => Err(unavailable),
        }
    }

    fn search_each(&self, queries: &[LabelQuery]) -> (answers: Result<Vec<SourceAnswer>, Unavailable>)
        ensures
            exists|listing: Result<Seq<CorpusPart>, Unavailable>, reads: Seq<Result<Seq<PartSearch>, Unavailable>>|
                #[trigger] self.corpus_read(listing, reads, queries@)
                    && answered_from_reads(
                    answers_view(answers),
                    self.source_name(),
                    listing,
                    reads,
                    queries@.len(),
                ),
    {
        let answers = self.answer(queries);
        let ghost batch = answers_view(answers);
        let ghost (listing, reads) = choose|
            listing: Result<Seq<CorpusPart>, Unavailable>,
            reads: Seq<Result<Seq<PartSearch>, Unavailable>>,
        |
            #[trigger] read_in_order(self.corpus, listing, reads, queries@) && answered_from_reads(
                batch,
                self.name,
                listing,
                reads,
                queries@.len(),
            );
        proof {
            assert(self.corpus_read(listing, reads, queries@));
            if queries@.len() > 0 {
                self.lemma_gives(listing, reads, queries@, batch, 0);
            }
            match batch {
                Ok(a) => {
                    assert forall|i: int| 0 <= i < a.len() && a.len() == queries@.len() implies self.gives(
                        queries@[i],
                        Ok(#[trigger] a[i]),
                    ) by {
                        self.lemma_gives(listing, reads, queries@, batch, i);
                    }
                },
                Err(u) => {},
            }
        }
        answers
    }
}

/// Reading fewer parts reads no more labels.
proof fn lemma_labels_read_prefix(all: Seq<Seq<PartSearch>>, n: int)
    requires
        0 <= n <= all.len(),
    ensures
        forall|k: int| labels_read_in(all.take(n), k) <= labels_read_in(all, k),
    decreases all.len() - n,
{
    if n < all.len() {
        lemma_labels_read_prefix(all.drop_last(), n);
        assert(all.drop_last().take(n) =~= all.take(n));
        assert forall|k: int| labels_read_in(all.take(n), k) <= labels_read_in(all, k) by {
            assert(labels_read_in(all.drop_last().take(n), k) <= labels_read_in(all.drop_last(), k));
        }
    } else {
        assert(all.take(n) =~= all);
    }
}

/// A named graph of the store, as a corpus of the store sees it.
#[derive(Debug, Clone, PartialEq, Eq)]
pub struct StoredGraph {
    /// The graph's IRI.
    pub iri: String,
    /// It holds a vocabulary, and not some other kind of graph.
    pub vocabulary: bool,
}

/// A staged change, as a corpus of the store sees it.
#[derive(Debug, Clone, PartialEq, Eq)]
pub struct StagedChange {
    /// The change's identifier, as reports write it.
    pub id: String,
    /// It is still waiting for a decision.
    pub waiting: bool,
    /// Where the statements it would add are held, if it adds any.
    pub payload: Option<String>,
}

/// A part as plain values: where it is read from, what it is called, and its kind.
pub open spec fn part_view(part: CorpusPart) -> (Seq<char>, Seq<char>, PartKind) {
    (part.at@, part.within@, part.kind)
}

/// Each part as plain values.
pub open spec fn parts_view(parts: Seq<CorpusPart>) -> Seq<(Seq<char>, Seq<char>, PartKind)> {
    parts.map_values(|part: CorpusPart| part_view(part))
}

/// The vocabulary graphs whose IRI is (`home`) or is not (`!home`) the target, in store order.
pub open spec fn vocabulary_iris(target: Seq<char>, graphs: Seq<StoredGraph>, home: bool) -> Seq<
    Seq<char>,
>
    decreases graphs.len(),
{
    if graphs.len() == 0 {
        Seq::empty()
    } else {
        let last = graphs.last();
        vocabulary_iris(target, graphs.drop_last(), home) + if last.vocabulary && (last.iri@
            == target) == home {
            seq![last.iri@]
        } else {
            Seq::empty()
        }
    }
}

/// The vocabulary being authored, as a part.
pub open spec fn home_view(iri: Seq<char>) -> (Seq<char>, Seq<char>, PartKind) {
    (iri, "this vocabulary"@, PartKind::Home)
}

/// Another vocabulary of the store, as a part.
pub open spec fn elsewhere_view(iri: Seq<char>) -> (Seq<char>, Seq<char>, PartKind) {
    (iri, "the vocabulary "@ + iri, PartKind::Vocabulary)
}

/// The changes still waiting for a decision that add statements, as parts, in store order.
pub open spec fn pending_views(changes: Seq<StagedChange>) -> Seq<(Seq<char>, Seq<char>, PartKind)>
    decreases changes.len(),
{
    if changes.len() == 0 {
        Seq::empty()
    } else {
        let last = changes.last();
        pending_views(changes.drop_last()) + match last.payload {
            Some(at) if last.waiting => seq![
                (at@, "candidate "@ + last.id@ + ", which is waiting for a decision"@, PartKind::Pending),
            ],
            _ => Seq::empty(),
        }
    }
}

/// The texts are in ascending order.
pub open spec fn ascending(texts: Seq<Seq<char>>) -> bool {
    forall|i: int, j: int| 0 <= i < j < texts.len() ==> text_le(#[trigger] texts[i], #[trigger] texts[j])
}

/// `parts` are the parts of the store a search reads, for a concept meant for `target`: the
/// vocabulary being authored first, then every other vocabulary in ascending order of IRI, then
/// each change still waiting for a decision that adds statements, in the order the store lists
/// them. Graphs that hold no vocabulary, and changes already decided or adding nothing, are not
/// read.
pub open spec fn parts_chosen(
    target: Seq<char>,
    graphs: Seq<StoredGraph>,
    changes: Seq<StagedChange>,
    parts: Seq<(Seq<char>, Seq<char>, PartKind)>,
) -> bool {
    let homes = vocabulary_iris(target, graphs, true);
    let others = vocabulary_iris(target, graphs, false);
    let middle = parts.subrange(homes.len() as int, (homes.len() + others.len()) as int);
    &&& parts.len() == homes.len() + others.len() + pending_views(changes).len()
    &&& parts.take(homes.len() as int) == homes.map_values(|iri: Seq<char>| home_view(iri))
    &&& parts.skip((homes.len() + others.len()) as int) == pending_views(changes)
    &&& forall|k: int| 0 <= k < middle.len() ==> #[trigger] middle[k] == elsewhere_view(middle[k].0)
    &&& ascending(middle.map_values(|part: (Seq<char>, Seq<char>, PartKind)| part.0))
    &&& middle.map_values(|part: (Seq<char>, Seq<char>, PartKind)| part.0).to_multiset()
        == others.to_multiset()
}

/// The texts of `texts`, as plain values.
pub open spec fn texts_view(texts: Seq<String>) -> Seq<Seq<char>> {
    texts.map_values(|text: String| text@)
}

/// `texts` in ascending order, each kept as often as it occurs.
fn ascending_order(texts: &Vec<String>) -> (sorted: Vec<String>)
    ensures
        ascending(texts_view(sorted@)),
        texts_view(sorted@).to_multiset() == texts_view(texts@).to_multiset(),
{
    let mut sorted: Vec<String> = Vec::new();
    let mut i: usize = 0;
    assert(texts_view(sorted@) =~= texts_view(texts@.take(0)));
    while i < texts.len()
        invariant
            i <= texts@.len(),
            ascending(texts_view(sorted@)),
            texts_view(sorted@).to_multiset() == texts_view(texts@.take(i as int)).to_multiset(),
        decreases texts.len() - i,
    {
        let text = &texts[i];
        let ghost now = texts_view(sorted@);
        let mut at: usize = 0;
        while at < sorted.len() && !text_less(text.as_str(), sorted[at].as_str())
            invariant
                at <= sorted@.len(),
                now == texts_view(sorted@),
                forall|j: int| 0 <= j < at ==> !text_lt(text@, #[trigger] now[j]),
            decreases sorted.len() - at,
        {
            at = at + 1;
        }
        proof {
            assert forall|j: int| at <= j < now.len() implies text_lt(text@, #[trigger] now[j]) by {
                assert(text_lt(text@, now[at as int]));
                if j > at {
                    assert(text_le(now[at as int], now[j]));
                    if text_lt(now[at as int], now[j]) {
                        lemma_text_lt_transitive(text@, now[at as int], now[j]);
                    }
                }
            }
        }
        let copy = string_of(text.as_str());
        sorted.insert(at, copy);
        proof {
            let next = texts_view(sorted@);
            assert(next =~= now.insert(at as int, text@));
            assert forall|a: int, b: int| 0 <= a < b < next.len() implies text_le(
                #[trigger] next[a],
                #[trigger] next[b],
            ) by {
                if a < at && b == at {
                    lemma_text_lt_trichotomy(text@, now[a]);
                } else if a == at && b > at {
                    assert(next[b] == now[b - 1]);
                } else if a < at && b > at {
                    assert(next[b] == now[b - 1]);
                } else if a > at {
                    assert(next[a] == now[a - 1]);
                    assert(next[b] == now[b - 1]);
                }
            }
            assert(texts_view(texts@.take(i + 1 as int)) =~= texts_view(texts@.take(i as int)).push(
                text@,
            ));
            assert(at <= now.len());
            vstd::seq_lib::to_multiset_insert(now, at as int, text@);
            vstd::seq_lib::to_multiset_build(texts_view(texts@.take(i as int)), text@);
            assert(texts_view(texts@.take(i as int)).push(text@).to_multiset()
                == texts_view(texts@.take(i as int)).to_multiset().insert(text@));
        }
        i = i + 1;
    }
    assert(texts@.take(texts@.len() as int) =~= texts@);
    sorted
}

/// The parts of the store a search reads for a concept meant for `target`, chosen from the
/// store's graphs and staged changes: the vocabulary being authored, then every other vocabulary
/// in ascending order of IRI, then each change still waiting for a decision that adds statements.
pub fn choose_parts(target: &str, graphs: &Vec<StoredGraph>, changes: &Vec<StagedChange>) -> (parts:
    Vec<CorpusPart>)
    ensures
        parts_chosen(target@, graphs@, changes@, parts_view(parts@)),
{
    let mut parts: Vec<CorpusPart> = Vec::new();
    let mut others: Vec<String> = Vec::new();
    let mut g: usize = 0;
    while g < graphs.len()
        invariant
            g <= graphs@.len(),
            parts_view(parts@) == vocabulary_iris(target@, graphs@.take(g as int), true).map_values(
                |iri: Seq<char>| home_view(iri),
            ),
            texts_view(others@) == vocabulary_iris(target@, graphs@.take(g as int), false),
        decreases graphs.len() - g,
    {
        let graph = &graphs[g];
        let ghost seen = graphs@.take(g as int);
        let ghost upto = graphs@.take(g + 1 as int);
        let ghost old_parts = parts@;
        let ghost old_others = others@;
        proof {
            assert(upto.drop_last() =~= seen);
            assert(upto.last() == graphs@[g as int]);
        }
        let home = graph.vocabulary && same_text(graph.iri.as_str(), target);
        let other = graph.vocabulary && !home;
        if home {
            parts.push(CorpusPart::home(graph.iri.as_str(), "this vocabulary"));
        } else if other {
            others.push(string_of(graph.iri.as_str()));
        }
        proof {
            let homes = vocabulary_iris(target@, upto, true);
            let away = vocabulary_iris(target@, upto, false);
            if home {
                assert(homes =~= vocabulary_iris(target@, seen, true).push(graph.iri@));
                assert(away =~= vocabulary_iris(target@, seen, false));
                assert(parts@ =~= old_parts.push(parts@.last()));
                assert(parts_view(parts@) =~= parts_view(old_parts).push(home_view(graph.iri@)));
            } else if other {
                assert(homes =~= vocabulary_iris(target@, seen, true));
                assert(away =~= vocabulary_iris(target@, seen, false).push(graph.iri@));
                assert(texts_view(others@) =~= texts_view(old_others).push(graph.iri@));
            } else {
                assert(homes =~= vocabulary_iris(target@, seen, true));
                assert(away =~= vocabulary_iris(target@, seen, false));
            }
            assert(parts_view(parts@) =~= homes.map_values(|iri: Seq<char>| home_view(iri)));
            assert(texts_view(others@) =~= away);
        }
        g = g + 1;
    }
    assert(graphs@.take(graphs@.len() as int) =~= graphs@);
    let ghost homes = parts_view(parts@);
    let sorted = ascending_order(&others);
    let mut k: usize = 0;
    while k < sorted.len()
        invariant
            k <= sorted@.len(),
            parts_view(parts@) == homes + texts_view(sorted@.take(k as int)).map_values(
                |iri: Seq<char>| elsewhere_view(iri),
            ),
        decreases sorted.len() - k,
    {
        let ghost old_parts = parts@;
        let mut within = string_of("the vocabulary ");
        push_str(&mut within, sorted[k].as_str());
        parts.push(CorpusPart::elsewhere(sorted[k].as_str(), within.as_str()));
        proof {
            assert(parts_view(parts@) =~= parts_view(old_parts).push(elsewhere_view(sorted@[k as int]@)));
            assert(texts_view(sorted@.take(k + 1 as int)) =~= texts_view(sorted@.take(k as int)).push(
                sorted@[k as int]@,
            ));
            assert(parts_view(parts@) =~= homes + texts_view(sorted@.take(k + 1 as int)).map_values(
                |iri: Seq<char>| elsewhere_view(iri),
            ));
        }
        k = k + 1;
    }
    assert(sorted@.take(sorted@.len() as int) =~= sorted@);
    let ghost listed = parts_view(parts@);
    let mut c: usize = 0;
    while c < changes.len()
        invariant
            c <= changes@.len(),
            parts_view(parts@) == listed + pending_views(changes@.take(c as int)),
        decreases changes.len() - c,
    {
        let change = &changes[c];
        let ghost old_parts = parts@;
        let ghost upto = changes@.take(c + 1 as int);
        proof {
            assert(upto.drop_last() =~= changes@.take(c as int));
            assert(upto.last() == changes@[c as int]);
        }
        if change.waiting {
            match &change.payload {
                Some(at) => {
                    let mut within = string_of("candidate ");
                    push_str(&mut within, change.id.as_str());
                    push_str(&mut within, ", which is waiting for a decision");
                    parts.push(CorpusPart::pending(at.as_str(), within.as_str()));
                    proof {
                        assert(parts_view(parts@) =~= parts_view(old_parts).push(
                            (at@, "candidate "@ + change.id@ + ", which is waiting for a decision"@, PartKind::Pending),
                        ));
                    }
                },
                None => {},
            }
        }
        proof {
            assert(parts_view(parts@) =~= listed + pending_views(upto));
        }
        c = c + 1;
    }
    assert(changes@.take(changes@.len() as int) =~= changes@);
    proof {
        let all = parts_view(parts@);
        let h = vocabulary_iris(target@, graphs@, true);
        let o = vocabulary_iris(target@, graphs@, false);
        let s = texts_view(sorted@);
        assert(s.len() == o.len()) by {
            broadcast use vstd::seq_lib::to_multiset_len;
            assert(s.to_multiset().len() == o.to_multiset().len());
        }
        assert(homes.len() == h.len());
        let middle = all.subrange(h.len() as int, (h.len() + o.len()) as int);
        assert(middle =~= s.map_values(|iri: Seq<char>| elsewhere_view(iri)));
        assert(middle.map_values(|part: (Seq<char>, Seq<char>, PartKind)| part.0) =~= s);
        assert(all.take(h.len() as int) =~= h.map_values(|iri: Seq<char>| home_view(iri)));
        assert(all.skip((h.len() + o.len()) as int) =~= pending_views(changes@));
    }
    parts
}

} // verus!
