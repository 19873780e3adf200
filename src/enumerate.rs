//! Enumeration of candidates from a paginated listing.
//!
//! The pager decides which page to request next and what to keep of each
//! page; the caller performs the requests and hands each page back.
use vstd::prelude::*;
use crate::error::HarvestError;
use crate::text::{is_prefix, starts_with};
use vstd::arithmetic::div_mod::lemma_fundamental_div_mod_converse;

verus! {

/// The names of a sequence of strings.
pub open spec fn names_view(v: Seq<String>) -> Seq<Seq<char>> {
    v.map_values(|s: String| s@)
}

/// The predicate "starts with `p`".
pub open spec fn prefixed(p: Seq<char>) -> spec_fn(Seq<char>) -> bool {
    |s: Seq<char>| is_prefix(p, s)
}

/// The state of an enumeration as the pager sees it.
pub struct PagerState {
    pub names: Seq<Seq<char>>,
    pub requested: nat,
    pub done: bool,
}

/// The state after one more page: an empty page ends the listing; otherwise
/// the names with the prefix are kept, and the listing ends once `max` of
/// them are there, cut to `max`.
pub open spec fn step(st: PagerState, prefix: Seq<char>, max: Option<usize>, page: Seq<Seq<char>>) -> PagerState {
    if page.len() == 0 {
        PagerState { names: st.names, requested: st.requested + 1, done: true }
    } else {
        let names = st.names + page.filter(prefixed(prefix));
        match max {
            Some(m) => if names.len() >= m {
                PagerState { names: names.take(m as int), requested: st.requested + 1, done: true }
            } else {
                PagerState { names, requested: st.requested + 1, done: false }
            },
            None => PagerState { names, requested: st.requested + 1, done: false },
        }
    }
}

/// The state after the pages are handed over one by one, until the pager is
/// done or the pages run out.
pub open spec fn run_pages(
    st: PagerState,
    prefix: Seq<char>,
    max: Option<usize>,
    pages: Seq<Seq<Seq<char>>>,
) -> PagerState
    decreases pages.len(),
{
    if pages.len() == 0 || st.done {
        st
    } else {
        run_pages(step(st, prefix, max, pages[0]), prefix, max, pages.drop_first())
    }
}

/// All items of the pages, in page order.
pub open spec fn concat_pages(pages: Seq<Seq<Seq<char>>>) -> Seq<Seq<char>>
    decreases pages.len(),
{
    if pages.len() == 0 {
        Seq::empty()
    } else {
        pages[0] + concat_pages(pages.drop_first())
    }
}

/// Drives a paginated listing: which page to request, and which names to keep.
pub struct Pager {
    pub prefix: String,
    pub max: Option<usize>,
    pub names: Vec<String>,
    pub requested: usize,
    pub done: bool,
}

impl Pager {
    pub open spec fn state(&self) -> PagerState {
        PagerState { names: names_view(self.names@), requested: self.requested as nat, done: self.done }
    }

    /// A pager that keeps names starting with `prefix`, at most `max` of them.
    pub fn new(prefix: String, max: Option<usize>) -> (r: Pager)
        ensures
            r.prefix@ == prefix@,
            r.max == max,
            r.state() == (PagerState { names: Seq::empty(), requested: 0, done: false }),
    {
        let r = Pager { prefix, max, names: Vec::new(), requested: 0, done: false };
        assert(names_view(r.names@) =~= Seq::<Seq<char>>::empty());
        r
    }

    /// The number, from 1, of the page to request next; `None` once the
    /// listing is over.
    pub fn next_page(&self) -> (r: Option<usize>)
        requires
            self.requested < usize::MAX,
        ensures
            self.done ==> r is None,
            !self.done ==> r == Some((self.requested + 1) as usize),
    {
        if self.done {
            None
        } else {
            Some(self.requested + 1)
        }
    }

    /// Takes the names of the page just received.
    pub fn accept_page(&mut self, page: &Vec<String>)
        requires
            !old(self).done,
            old(self).requested < usize::MAX,
        ensures
            final(self).prefix == old(self).prefix,
            final(self).max == old(self).max,
            final(self).state() == step(old(self).state(), old(self).prefix@, old(self).max, names_view(page@)),
    {
        self.requested = self.requested + 1;
        let n = page.len();
        if n == 0 {
            self.done = true;
            return;
        }
        let ghost start = names_view(self.names@);
        let ghost pv = names_view(page@);
        let ghost pred = prefixed(self.prefix@);
        let mut i: usize = 0;
        assert(pv.take(0) =~= Seq::<Seq<char>>::empty());
        assert(start + pv.take(0).filter(pred) =~= start);
        while i < n
            invariant
                n == page@.len(),
                pv == names_view(page@),
                pred == prefixed(self.prefix@),
                self.prefix == old(self).prefix,
                self.max == old(self).max,
                self.requested == old(self).requested + 1,
                !self.done,
                i <= n,
                names_view(self.names@) == start + pv.take(i as int).filter(pred),
            decreases n - i,
        {
            let ghost before = self.names@;
            let keep = starts_with(page[i].as_str(), self.prefix.as_str());
            if keep {
                self.names.push(page[i].clone());
                assert(names_view(self.names@) =~= names_view(before).push(pv[i as int]));
            }
            proof {
                assert(pred(pv[i as int]) == keep);
                assert(pv.take(i + 1) =~= pv.take(i as int).push(pv[i as int]));
                pv.take(i as int).lemma_filter_push(pv[i as int], pred);
                assert(names_view(self.names@) =~= start + pv.take(i + 1).filter(pred));
            }
            i = i + 1;
        }
        assert(pv.take(n as int) =~= pv);
        if let Some(m) = self.max {
            if self.names.len() >= m {
                self.names.truncate(m);
                self.done = true;
                assert(names_view(self.names@) =~= (start + pv.filter(pred)).take(m as int));
            }
        }
    }

    /// The kept names; an error if none was kept.
    pub fn finish(self) -> (r: Result<Vec<String>, HarvestError>)
        ensures
            self.names@.len() == 0 <==> r == Err::<Vec<String>, HarvestError>(HarvestError::EmptyResult),
            self.names@.len() > 0 <==> r is Ok,
            r is Ok ==> names_view(r->Ok_0@) == self.state().names,
    {
        if self.names.len() == 0 {
            Err(HarvestError::EmptyResult)
        } else {
            Ok(self.names)
        }
    }
}

proof fn lemma_run_unbounded(st: PagerState, prefix: Seq<char>, pages: Seq<Seq<Seq<char>>>)
    requires
        !st.done,
        pages.len() >= 1,
        pages.last().len() == 0,
        forall|i: int| 0 <= i < pages.len() - 1 ==> #[trigger] pages[i].len() > 0,
    ensures
        run_pages(st, prefix, None, pages) == (PagerState {
            names: st.names + concat_pages(pages.drop_last()).filter(prefixed(prefix)),
            requested: st.requested + pages.len(),
            done: true,
        }),
    decreases pages.len(),
{
    let pred = prefixed(prefix);
    let next = step(st, prefix, None, pages[0]);
    assert(run_pages(st, prefix, None, pages) == run_pages(next, prefix, None, pages.drop_first()));
    if pages.len() == 1 {
        assert(pages.drop_first().len() == 0);
        assert(pages.drop_last() =~= Seq::<Seq<Seq<char>>>::empty());
        assert(concat_pages(pages.drop_last()).filter(pred) =~= Seq::<Seq<char>>::empty());
        assert(st.names + Seq::<Seq<char>>::empty() =~= st.names);
    } else {
        let rest = pages.drop_first();
        assert forall|i: int| 0 <= i < rest.len() - 1 implies #[trigger] rest[i].len() > 0 by {
            assert(rest[i] == pages[i + 1]);
        }
        lemma_run_unbounded(next, prefix, rest);
        assert(pages.drop_last()[0] == pages[0]);
        assert(pages.drop_last().drop_first() =~= rest.drop_last());
        Seq::filter_distributes_over_add(pages[0], concat_pages(rest.drop_last()), pred);
        assert(next.names + concat_pages(rest.drop_last()).filter(pred)
            =~= st.names + concat_pages(pages.drop_last()).filter(pred));
    }
}

/// A listing whose pages are non-empty up to a final empty one is requested
/// page by page through that empty one, and yields the names of all pages
/// that start with the prefix, in page order.
pub proof fn lemma_pagination_ends_on_empty_page(prefix: Seq<char>, pages: Seq<Seq<Seq<char>>>)
    requires
        pages.len() >= 1,
        pages.last().len() == 0,
        forall|i: int| 0 <= i < pages.len() - 1 ==> #[trigger] pages[i].len() > 0,
    ensures
        run_pages(PagerState { names: Seq::empty(), requested: 0, done: false }, prefix, None, pages) == (PagerState {
            names: concat_pages(pages.drop_last()).filter(prefixed(prefix)),
            requested: pages.len(),
            done: true,
        }),
{
    let st = PagerState { names: Seq::empty(), requested: 0, done: false };
    lemma_run_unbounded(st, prefix, pages);
    assert(st.names + concat_pages(pages.drop_last()).filter(prefixed(prefix))
        =~= concat_pages(pages.drop_last()).filter(prefixed(prefix)));
}

/// Pages as an offset-paginated listing serves them: each non-empty page but
/// the last non-empty one is full, and a final empty page follows.
pub open spec fn served_pages(pages: Seq<Seq<Seq<char>>>, per_page: nat) -> bool {
    &&& pages.len() >= 1
    &&& pages.last().len() == 0
    &&& forall|i: int| 0 <= i < pages.len() - 2 ==> #[trigger] pages[i].len() == per_page
    &&& pages.len() >= 2 ==> 1 <= pages[pages.len() - 2].len() <= per_page
}

proof fn lemma_served_total(ps: Seq<Seq<Seq<char>>>, per_page: nat)
    requires
        ps.len() >= 1,
        forall|i: int| 0 <= i < ps.len() - 1 ==> #[trigger] ps[i].len() == per_page,
    ensures
        concat_pages(ps).len() == (ps.len() - 1) * per_page + ps.last().len(),
    decreases ps.len(),
{
    if ps.len() == 1 {
        assert(concat_pages(ps.drop_first()) == Seq::<Seq<char>>::empty());
    } else {
        let rest = ps.drop_first();
        assert forall|i: int| 0 <= i < rest.len() - 1 implies #[trigger] rest[i].len() == per_page by {
            assert(rest[i] == ps[i + 1]);
        }
        lemma_served_total(rest, per_page);
        assert(rest.last() == ps.last());
        assert(ps[0].len() == per_page);
        assert((ps.len() - 1) * per_page == per_page + (ps.len() - 2) * per_page) by (nonlinear_arith);
    }
}

/// A listing of `total` items served `per_page` at a time is requested in
/// exactly `ceil(total / per_page) + 1` pages, the last of them empty, and
/// yields the items that start with the prefix, in page order.
pub proof fn lemma_pagination_page_count(prefix: Seq<char>, pages: Seq<Seq<Seq<char>>>, per_page: nat)
    requires
        per_page >= 1,
        served_pages(pages, per_page),
    ensures
        ({
            let total = concat_pages(pages.drop_last()).len();
            let r = run_pages(PagerState { names: Seq::empty(), requested: 0, done: false }, prefix, None, pages);
            &&& r.requested == (total + per_page - 1) / (per_page as int) + 1
            &&& r.names == concat_pages(pages.drop_last()).filter(prefixed(prefix))
            &&& r.done
        }),
{
    assert forall|i: int| 0 <= i < pages.len() - 1 implies #[trigger] pages[i].len() > 0 by {
        if i < pages.len() - 2 {
            assert(pages[i].len() == per_page);
        }
    }
    lemma_pagination_ends_on_empty_page(prefix, pages);
    let k = pages.len() - 1;
    let total = concat_pages(pages.drop_last()).len();
    if k == 0 {
        assert(pages.drop_last().len() == 0);
        assert(total == 0);
        lemma_fundamental_div_mod_converse(per_page - 1, per_page as int, 0, per_page - 1);
    } else {
        let ps = pages.drop_last();
        assert forall|i: int| 0 <= i < ps.len() - 1 implies #[trigger] ps[i].len() == per_page by {
            assert(ps[i] == pages[i]);
        }
        lemma_served_total(ps, per_page);
        let last = ps.last().len();
        assert(last == pages[pages.len() - 2].len());
        assert(total + per_page - 1 == k * per_page + (last - 1)) by (nonlinear_arith)
            requires
                total == (k - 1) * per_page + last;
        lemma_fundamental_div_mod_converse(total + per_page - 1, per_page as int, k, last - 1);
    }
}

/// The first `k` items of `s`, or all of them where there are fewer.
pub open spec fn first_n<A>(s: Seq<A>, k: int) -> Seq<A> {
    if s.len() <= k {
        s
    } else {
        s.take(k)
    }
}

proof fn lemma_run_bounded(st: PagerState, prefix: Seq<char>, k: usize, pages: Seq<Seq<Seq<char>>>)
    requires
        !st.done,
        st.names.len() < k,
        pages.len() >= 1,
        pages.last().len() == 0,
        forall|i: int| 0 <= i < pages.len() - 1 ==> #[trigger] pages[i].len() > 0,
    ensures
        run_pages(st, prefix, Some(k), pages).names
            == first_n(st.names + concat_pages(pages.drop_last()).filter(prefixed(prefix)), k as int),
        run_pages(st, prefix, Some(k), pages).done,
    decreases pages.len(),
{
    let pred = prefixed(prefix);
    let next = step(st, prefix, Some(k), pages[0]);
    assert(run_pages(st, prefix, Some(k), pages) == run_pages(next, prefix, Some(k), pages.drop_first()));
    if pages.len() == 1 {
        assert(pages.drop_first().len() == 0);
        assert(pages.drop_last() =~= Seq::<Seq<Seq<char>>>::empty());
        assert(concat_pages(pages.drop_last()).filter(pred) =~= Seq::<Seq<char>>::empty());
        assert(st.names + Seq::<Seq<char>>::empty() =~= st.names);
    } else {
        let rest = pages.drop_first();
        assert(pages.drop_last()[0] == pages[0]);
        assert(pages.drop_last().drop_first() =~= rest.drop_last());
        Seq::filter_distributes_over_add(pages[0], concat_pages(rest.drop_last()), pred);
        let grown = st.names + pages[0].filter(pred);
        assert(st.names + concat_pages(pages.drop_last()).filter(pred)
            =~= grown + concat_pages(rest.drop_last()).filter(pred));
        if grown.len() >= k {
            assert(run_pages(next, prefix, Some(k), rest) == next);
            assert(first_n(grown + concat_pages(rest.drop_last()).filter(pred), k as int) =~= grown.take(k as int));
        } else {
            assert forall|i: int| 0 <= i < rest.len() - 1 implies #[trigger] rest[i].len() > 0 by {
                assert(rest[i] == pages[i + 1]);
            }
            lemma_run_bounded(next, prefix, k, rest);
        }
    }
}

/// With a maximum count `k`, a listing that ends on an empty page yields the
/// first `k` names that start with the prefix, in page order, and the
/// listing ends.
pub proof fn lemma_pagination_max_count(prefix: Seq<char>, k: usize, pages: Seq<Seq<Seq<char>>>)
    requires
        k >= 1,
        pages.len() >= 1,
        pages.last().len() == 0,
        forall|i: int| 0 <= i < pages.len() - 1 ==> #[trigger] pages[i].len() > 0,
    ensures
        ({
            let r = run_pages(PagerState { names: Seq::empty(), requested: 0, done: false }, prefix, Some(k), pages);
            &&& r.names == first_n(concat_pages(pages.drop_last()).filter(prefixed(prefix)), k as int)
            &&& r.done
        }),
{
    let st = PagerState { names: Seq::empty(), requested: 0, done: false };
    lemma_run_bounded(st, prefix, k, pages);
    assert(st.names + concat_pages(pages.drop_last()).filter(prefixed(prefix))
        =~= concat_pages(pages.drop_last()).filter(prefixed(prefix)));
}

} // verus!
