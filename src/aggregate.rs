//! Merging of per-candidate results into one index sorted by key.
use vstd::prelude::*;
use crate::text::{lemma_str_order, str_less, str_lt};

verus! {

/// One discovered fact of the index.
pub struct Entry {
    pub key: String,
    pub value: String,
    pub url: String,
    pub description: String,
}

/// The characters of an entry's fields.
pub struct EntryView {
    pub key: Seq<char>,
    pub value: Seq<char>,
    pub url: Seq<char>,
    pub description: Seq<char>,
}

impl View for Entry {
    type V = EntryView;

    open spec fn view(&self) -> EntryView {
        EntryView {
            key: self.key@,
            value: self.value@,
            url: self.url@,
            description: self.description@,
        }
    }
}

/// The views of a sequence of entries.
pub open spec fn entry_views(s: Seq<Entry>) -> Seq<EntryView> {
    s.map_values(|e: Entry| e@)
}

/// Keys strictly ascending in lexicographic order.
pub open spec fn sorted_by_key(s: Seq<EntryView>) -> bool {
    forall|i: int, j: int| 0 <= i < j < s.len() ==> str_lt(#[trigger] s[i].key, #[trigger] s[j].key)
}

/// What a list of entries amounts to when merged in order: later entries
/// replace earlier ones with the same key.
pub open spec fn contribution_map(s: Seq<EntryView>) -> Map<Seq<char>, EntryView>
    decreases s.len(),
{
    if s.len() == 0 {
        Map::empty()
    } else {
        contribution_map(s.drop_last()).insert(s.last().key, s.last())
    }
}

/// The index under construction: entries sorted by key, one per key.
pub struct Aggregate {
    pub entries: Vec<Entry>,
    pub contents: Ghost<Map<Seq<char>, EntryView>>,
}

impl View for Aggregate {
    type V = Map<Seq<char>, EntryView>;

    open spec fn view(&self) -> Map<Seq<char>, EntryView> {
        self.contents@
    }
}

impl Aggregate {
    /// The entries are sorted by key and are exactly the contents.
    pub open spec fn wf(&self) -> bool {
        &&& sorted_by_key(entry_views(self.entries@))
        &&& forall|i: int| 0 <= i < self.entries@.len() ==> {
            &&& #[trigger] self.contents@.contains_key(self.entries@[i].key@)
            &&& self.contents@[self.entries@[i].key@] == self.entries@[i]@
        }
        &&& forall|k: Seq<char>| #[trigger] self.contents@.contains_key(k) ==> exists|i: int|
            0 <= i < self.entries@.len() && #[trigger] self.entries@[i].key@ == k
    }

    /// The entries in key order.
    pub open spec fn items(&self) -> Seq<EntryView> {
        entry_views(self.entries@)
    }

    pub fn new() -> (r: Aggregate)
        ensures
            r.wf(),
            r@ == Map::<Seq<char>, EntryView>::empty(),
            r.items().len() == 0,
    {
        Aggregate { entries: Vec::new(), contents: Ghost(Map::empty()) }
    }

    pub fn len(&self) -> (r: usize)
        requires
            self.wf(),
        ensures
            r == self.items().len(),
    {
        self.entries.len()
    }

    /// Adds `e`, replacing the entry with the same key if there is one.
    pub fn insert(&mut self, e: Entry)
        requires
            old(self).wf(),
        ensures
            final(self).wf(),
            final(self)@ == old(self)@.insert(e.key@, e@),
    {
        let n = self.entries.len();
        let mut i: usize = 0;
        while i < n && str_less(self.entries[i].key.as_str(), e.key.as_str())
            invariant
                n == self.entries@.len(),
                i <= n,
                forall|j: int| 0 <= j < i ==> str_lt(#[trigger] self.entries@[j].key@, e.key@),
            decreases n - i,
        {
            i = i + 1;
        }
        let ghost old_entries = self.entries@;
        let ghost ek = e.key@;
        if i < n && self.entries[i].key.eq(&e.key) {
            self.entries.set(i, e);
            self.contents = Ghost(self.contents@.insert(ek, self.entries@[i as int]@));
            assert(entry_views(self.entries@) =~= entry_views(old_entries).update(i as int, self.entries@[i as int]@));
            assert forall|a: int, b: int| 0 <= a < b < self.entries@.len() implies str_lt(
                #[trigger] entry_views(self.entries@)[a].key, #[trigger] entry_views(self.entries@)[b].key) by {
                assert(entry_views(self.entries@)[a].key == entry_views(old_entries)[a].key);
                assert(entry_views(self.entries@)[b].key == entry_views(old_entries)[b].key);
            }
            assert forall|j: int| 0 <= j < self.entries@.len() implies {
                &&& #[trigger] self.contents@.contains_key(self.entries@[j].key@)
                &&& self.contents@[self.entries@[j].key@] == self.entries@[j]@
            } by {
                if j != i {
                    assert(self.entries@[j] == old_entries[j]);
                    assert(old(self).contents@.contains_key(old(self).entries@[j].key@));
                    if old_entries[j].key@ == ek {
                        lemma_str_order(ek, ek, ek);
                        if j < i {
                            assert(str_lt(entry_views(old_entries)[j].key, entry_views(old_entries)[i as int].key));
                        } else {
                            assert(str_lt(entry_views(old_entries)[i as int].key, entry_views(old_entries)[j].key));
                        }
                    }
                }
            }
            assert forall|k: Seq<char>| #[trigger] self.contents@.contains_key(k) implies exists|j: int|
                0 <= j < self.entries@.len() && #[trigger] self.entries@[j].key@ == k by {
                if k != ek {
                    let j = choose|j: int| 0 <= j < old_entries.len() && #[trigger] old_entries[j].key@ == k;
                    assert(self.entries@[j].key@ == k);
                }
            }
        } else {
            proof {
                if i < n {
                    assert forall|j: int| i <= j < n implies str_lt(ek, #[trigger] old_entries[j].key@) by {
                        lemma_str_order(ek, old_entries[i as int].key@, old_entries[j].key@);
                        lemma_str_order(old_entries[i as int].key@, ek, old_entries[j].key@);
                        assert(entry_views(old_entries)[i as int].key == old_entries[i as int].key@);
                        assert(entry_views(old_entries)[j].key == old_entries[j].key@);
                    }
                }
            }
            self.entries.insert(i, e);
            let ghost ev = self.entries@[i as int]@;
            self.contents = Ghost(self.contents@.insert(ek, ev));
            proof {
                assert(!old(self)@.contains_key(ek)) by {
                    if old(self)@.contains_key(ek) {
                        let j = choose|j: int| 0 <= j < old_entries.len() && #[trigger] old_entries[j].key@ == ek;
                        lemma_str_order(ek, ek, ek);
                    }
                }
                let nv = entry_views(self.entries@);
                assert(nv =~= entry_views(old_entries).insert(i as int, ev));
                assert forall|a: int, b: int| 0 <= a < b < nv.len() implies str_lt(#[trigger] nv[a].key, #[trigger] nv[b].key) by {
                    let ov = entry_views(old_entries);
                    if b < i {
                        assert(nv[a] == ov[a] && nv[b] == ov[b]);
                    } else if b == i {
                        assert(nv[a] == ov[a]);
                    } else if a == i {
                        assert(nv[b] == ov[b - 1]);
                    } else if a < i {
                        assert(nv[a] == ov[a] && nv[b] == ov[b - 1]);
                    } else {
                        assert(nv[a] == ov[a - 1] && nv[b] == ov[b - 1]);
                    }
                }
                assert forall|j: int| 0 <= j < self.entries@.len() implies {
                    &&& #[trigger] self.contents@.contains_key(self.entries@[j].key@)
                    &&& self.contents@[self.entries@[j].key@] == self.entries@[j]@
                } by {
                    if j < i {
                        assert(self.entries@[j] == old_entries[j]);
                        assert(old(self).contents@.contains_key(old(self).entries@[j].key@));
                    } else if j > i {
                        assert(self.entries@[j] == old_entries[j - 1]);
                        assert(old(self).contents@.contains_key(old(self).entries@[j - 1].key@));
                    }
                }
                assert forall|k: Seq<char>| #[trigger] self.contents@.contains_key(k) implies exists|j: int|
                    0 <= j < self.entries@.len() && #[trigger] self.entries@[j].key@ == k by {
                    if k != ek {
                        let j = choose|j: int| 0 <= j < old_entries.len() && #[trigger] old_entries[j].key@ == k;
                        if j < i {
                            assert(self.entries@[j].key@ == k);
                        } else {
                            assert(self.entries@[j + 1].key@ == k);
                        }
                    } else {
                        assert(self.entries@[i as int].key@ == k);
                    }
                }
            }
        }
    }
}


impl Entry {
    /// A copy of the entry.
    pub fn duplicate(&self) -> (r: Entry)
        ensures
            r@ == self@,
    {
        Entry {
            key: self.key.clone(),
            value: self.value.clone(),
            url: self.url.clone(),
            description: self.description.clone(),
        }
    }
}

/// How one candidate ended: with entries, or with none for one of three reasons.
pub enum CandidateOutcome {
    /// Fetched and extracted; the entries in the order they were found.
    Extracted(Vec<Entry>),
    /// The candidate lacks the resource; this is not an error.
    Absent,
    /// A request failed; the message says why.
    FetchFailed(String),
    /// The content could not be parsed; the message says why.
    ExtractFailed(String),
}

/// What an outcome adds to the index.
pub open spec fn outcome_contribution(o: CandidateOutcome) -> Map<Seq<char>, EntryView> {
    match o {
        CandidateOutcome::Extracted(es) => contribution_map(entry_views(es@)),
        _ => Map::empty(),
    }
}

/// The contents after absorbing each outcome in turn into `m`.
pub open spec fn absorb_all(m: Map<Seq<char>, EntryView>, os: Seq<CandidateOutcome>) -> Map<Seq<char>, EntryView>
    decreases os.len(),
{
    if os.len() == 0 {
        m
    } else {
        absorb_all(m, os.drop_last()).union_prefer_right(outcome_contribution(os.last()))
    }
}

impl Aggregate {
    /// Merges a candidate's entries in order; a later entry replaces an
    /// earlier one with the same key.
    pub fn merge(&mut self, contribution: &Vec<Entry>)
        requires
            old(self).wf(),
        ensures
            final(self).wf(),
            final(self)@ == old(self)@.union_prefer_right(contribution_map(entry_views(contribution@))),
    {
        let n = contribution.len();
        let mut i: usize = 0;
        assert(entry_views(contribution@).take(0) =~= Seq::<EntryView>::empty());
        assert(old(self)@.union_prefer_right(Map::empty()) =~= old(self)@);
        while i < n
            invariant
                n == contribution@.len(),
                i <= n,
                self.wf(),
                self@ == old(self)@.union_prefer_right(contribution_map(entry_views(contribution@).take(i as int))),
            decreases n - i,
        {
            let e = contribution[i].duplicate();
            let ghost before = self@;
            self.insert(e);
            proof {
                let cv = entry_views(contribution@);
                assert(cv.take(i + 1).drop_last() =~= cv.take(i as int));
                assert(self@ =~= old(self)@.union_prefer_right(contribution_map(cv.take(i + 1))));
            }
            i = i + 1;
        }
        assert(entry_views(contribution@).take(n as int) =~= entry_views(contribution@));
    }

    /// Absorbs one candidate's outcome: only extracted entries change the index.
    pub fn absorb(&mut self, outcome: &CandidateOutcome)
        requires
            old(self).wf(),
        ensures
            final(self).wf(),
            final(self)@ == old(self)@.union_prefer_right(outcome_contribution(*outcome)),
            !(outcome is Extracted) ==> final(self)@ == old(self)@,
    {
        match outcome {
            CandidateOutcome::Extracted(es) => self.merge(es),
            _ => {
                assert(old(self)@.union_prefer_right(Map::empty()) =~= old(self)@);
            },
        }
    }
}

/// A candidate that ends without entries leaves the index as if it had not
/// been there: absorbing all outcomes gives what absorbing all but it gives.
pub proof fn lemma_failure_isolated(m: Map<Seq<char>, EntryView>, os: Seq<CandidateOutcome>, i: int)
    requires
        0 <= i < os.len(),
        !(os[i] is Extracted),
    ensures
        absorb_all(m, os) == absorb_all(m, os.remove(i)),
    decreases os.len(),
{
    let r = absorb_all(m, os.drop_last());
    if i == os.len() - 1 {
        assert(os.remove(i) =~= os.drop_last());
        assert(r.union_prefer_right(Map::empty()) =~= r);
    } else {
        lemma_failure_isolated(m, os.drop_last(), i);
        assert(os.remove(i).drop_last() =~= os.drop_last().remove(i));
        assert(os.remove(i).last() == os.last());
    }
}

/// Two contributions that agree on the keys they share give the same
/// contents whichever is merged first.
pub proof fn lemma_merge_order_irrelevant(
    m: Map<Seq<char>, EntryView>,
    c1: Map<Seq<char>, EntryView>,
    c2: Map<Seq<char>, EntryView>,
)
    requires
        agree(c1, c2),
    ensures
        m.union_prefer_right(c1).union_prefer_right(c2) == m.union_prefer_right(c2).union_prefer_right(c1),
{
    assert(m.union_prefer_right(c1).union_prefer_right(c2) =~= m.union_prefer_right(c2).union_prefer_right(c1));
}

/// Two contributions agree where their keys meet.
pub open spec fn agree(c1: Map<Seq<char>, EntryView>, c2: Map<Seq<char>, EntryView>) -> bool {
    forall|k: Seq<char>| c1.contains_key(k) && c2.contains_key(k) ==> c1[k] == c2[k]
}

/// The outcomes with the `i`-th and the next one completing in the other order.
pub open spec fn swap_next(os: Seq<CandidateOutcome>, i: int) -> Seq<CandidateOutcome> {
    os.update(i, os[i + 1]).update(i + 1, os[i])
}

/// When two candidates that complete one after the other contribute agreeing
/// entries, the order in which they complete does not change the contents.
pub proof fn lemma_completion_order_irrelevant(m: Map<Seq<char>, EntryView>, os: Seq<CandidateOutcome>, i: int)
    requires
        0 <= i,
        i + 1 < os.len(),
        agree(outcome_contribution(os[i]), outcome_contribution(os[i + 1])),
    ensures
        absorb_all(m, os) == absorb_all(m, swap_next(os, i)),
    decreases os.len(),
{
    let t = swap_next(os, i);
    if i + 1 == os.len() - 1 {
        let base = os.drop_last().drop_last();
        assert(t.drop_last().drop_last() =~= base);
        assert(t.last() == os[i] && t.drop_last().last() == os[i + 1]);
        assert(os.drop_last().last() == os[i]);
        let b = absorb_all(m, base);
        let c1 = outcome_contribution(os[i]);
        let c2 = outcome_contribution(os[i + 1]);
        assert(os.last() == os[i + 1]);
        assert(absorb_all(m, os.drop_last()) == b.union_prefer_right(c1));
        assert(absorb_all(m, os) == b.union_prefer_right(c1).union_prefer_right(c2));
        assert(absorb_all(m, t.drop_last()) == b.union_prefer_right(c2));
        assert(absorb_all(m, t) == b.union_prefer_right(c2).union_prefer_right(c1));
        lemma_merge_order_irrelevant(b, c1, c2);
    } else {
        lemma_completion_order_irrelevant(m, os.drop_last(), i);
        assert(t.drop_last() =~= swap_next(os.drop_last(), i));
        assert(t.last() == os.last());
    }
}

/// The entries of an index are in strictly ascending key order.
pub proof fn lemma_items_sorted(a: &Aggregate)
    requires
        a.wf(),
    ensures
        forall|i: int, j: int| 0 <= i < j < a.items().len() ==> str_lt(#[trigger] a.items()[i].key, #[trigger] a.items()[j].key),
{
}

proof fn lemma_same_prefix(a: &Aggregate, b: &Aggregate, n: int)
    requires
        a.wf(),
        b.wf(),
        a@ == b@,
        0 <= n <= a.items().len(),
        n <= b.items().len(),
    ensures
        forall|i: int| 0 <= i < n ==> a.items()[i] == b.items()[i],
    decreases n,
{
    if n > 0 {
        let m = n - 1;
        lemma_same_prefix(a, b, m);
        let ka = a.entries@[m].key@;
        let kb = b.entries@[m].key@;
        assert(a.items()[m].key == ka);
        assert(b.items()[m].key == kb);
        assert(a.contents@.contains_key(a.entries@[m].key@));
        assert(b.contents@.contains_key(b.entries@[m].key@));
        let j = choose|j: int| 0 <= j < b.entries@.len() && #[trigger] b.entries@[j].key@ == ka;
        let jj = choose|j: int| 0 <= j < a.entries@.len() && #[trigger] a.entries@[j].key@ == kb;
        assert(b.items()[j].key == ka);
        assert(a.items()[jj].key == kb);
        lemma_str_order(ka, ka, kb);
        lemma_str_order(kb, kb, ka);
        lemma_str_order(ka, kb, ka);
        if j < m {
            assert(a.items()[j] == b.items()[j]);
            assert(str_lt(a.items()[j].key, a.items()[m].key));
        }
        if jj < m {
            assert(a.items()[jj] == b.items()[jj]);
            assert(str_lt(b.items()[jj].key, b.items()[m].key));
        }
        if j > m && jj > m {
            assert(str_lt(b.items()[m].key, b.items()[j].key));
            assert(str_lt(a.items()[m].key, a.items()[jj].key));
        }
        assert(j == m || jj == m);
        assert(ka == kb);
        assert(a.contents@[ka] == a.entries@[m]@);
        assert(b.contents@[kb] == b.entries@[m]@);
    }
}

/// The entries of an index depend on its contents alone, not on the order in
/// which they were merged: two indexes with the same contents list the same
/// entries.
pub proof fn lemma_items_determined_by_contents(a: &Aggregate, b: &Aggregate)
    requires
        a.wf(),
        b.wf(),
        a@ == b@,
    ensures
        a.items() == b.items(),
{
    let la = a.items().len() as int;
    let lb = b.items().len() as int;
    if la < lb {
        lemma_same_prefix(a, b, la);
        let k = b.entries@[la].key@;
        assert(b.contents@.contains_key(b.entries@[la].key@));
        let j = choose|j: int| 0 <= j < a.entries@.len() && #[trigger] a.entries@[j].key@ == k;
        assert(a.items()[j] == b.items()[j]);
        assert(str_lt(b.items()[j].key, b.items()[la].key));
        lemma_str_order(k, k, k);
    } else if lb < la {
        lemma_same_prefix(b, a, lb);
        let k = a.entries@[lb].key@;
        assert(a.contents@.contains_key(a.entries@[lb].key@));
        let j = choose|j: int| 0 <= j < b.entries@.len() && #[trigger] b.entries@[j].key@ == k;
        assert(a.items()[j] == b.items()[j]);
        assert(str_lt(a.items()[j].key, a.items()[lb].key));
        lemma_str_order(k, k, k);
    } else {
        lemma_same_prefix(a, b, la);
        assert(a.items() =~= b.items());
    }
}

/// The artifact of a run: where the values came from, when, and the entries
/// in key order.
pub struct RunOutcome {
    pub source: String,
    pub fetched_at: String,
    pub items: Vec<Entry>,
}

impl Aggregate {
    /// Wraps the entries, in key order, with a source descriptor and a time.
    pub fn finish_at(self, source: String, fetched_at: String) -> (r: RunOutcome)
        requires
            self.wf(),
        ensures
            r.source@ == source@,
            r.fetched_at@ == fetched_at@,
            entry_views(r.items@) == self.items(),
            sorted_by_key(entry_views(r.items@)),
    {
        RunOutcome { source, fetched_at, items: self.entries }
    }
}

} // verus!
