//! A bounded cache of pages of row objects that evicts the least recently
//! used page.
use std::collections::{HashMap, VecDeque};
use vstd::prelude::*;

verus! {

broadcast use vstd::std_specs::hash::group_hash_axioms;

/// A value that can be copied so that the copy equals the value copied.
pub trait ExactCopy: Sized {
    fn exact_copy(&self) -> (copy: Self)
        ensures
            copy == *self,
    ;
}

/// One row object handed out by a list model: a stable handle that stands
/// for the identity of the object, and the row it currently shows.
#[derive(Clone, Debug, PartialEq, Eq)]
pub struct RowObject<R> {
    pub handle: u64,
    pub row: R,
}

impl<R: View> View for RowObject<R> {
    type V = RowObject<R::V>;

    open spec fn view(&self) -> RowObject<R::V> {
        RowObject { handle: self.handle, row: self.row@ }
    }
}

/// The handle that follows `handle` when handles are handed out in turn.
pub open spec fn next_handle_after(handle: u64) -> u64 {
    if handle == u64::MAX {
        0
    } else {
        (handle + 1) as u64
    }
}

/// The handle handed out `count` handles after `base`.
pub open spec fn handle_after(base: u64, count: nat) -> u64
    decreases count,
{
    if count == 0 {
        base
    } else {
        next_handle_after(handle_after(base, (count - 1) as nat))
    }
}

/// The views of a list of row objects.
pub open spec fn objects_view<R: View>(objects: Seq<RowObject<R>>) -> Seq<RowObject<R::V>> {
    objects.map_values(|o: RowObject<R>| o@)
}

impl<R: ExactCopy> ExactCopy for RowObject<R> {
    fn exact_copy(&self) -> (copy: Self) {
        RowObject { handle: self.handle, row: self.row.exact_copy() }
    }
}

/// The row objects of one cached page, in position order.
pub struct CachedPage<R>(pub Vec<RowObject<R>>);

/// Copies a list of row objects element by element.
pub fn copy_objects<R: ExactCopy>(objects: &Vec<RowObject<R>>) -> (copy: Vec<RowObject<R>>)
    ensures
        copy@ == objects@,
{
    let mut copy: Vec<RowObject<R>> = Vec::new();
    let mut i: usize = 0;
    while i < objects.len()
        invariant
            i <= objects.len(),
            copy@ == objects@.subrange(0, i as int),
        decreases objects.len() - i,
    {
        copy.push(objects[i].exact_copy());
        i += 1;
        assert(copy@ =~= objects@.subrange(0, i as int));
    }
    assert(objects@.subrange(0, objects@.len() as int) =~= objects@);
    copy
}

/// The recency order after `page_start` was used: it moves to the most
/// recently used end, and nothing else changes place.
pub open spec fn touched(order: Seq<u64>, page_start: u64) -> Seq<u64> {
    order.remove_value(page_start).push(page_start)
}

/// A bounded cache of pages keyed by their first position, which evicts the
/// least recently used page when it grows past its capacity.
pub struct PageCache<R> {
    max_pages: usize,
    pages: HashMap<u64, CachedPage<R>>,
    lru: VecDeque<u64>,
}

impl<R> PageCache<R> {
    /// The most pages the cache holds.
    pub closed spec fn capacity(&self) -> nat {
        self.max_pages as nat
    }

    /// The cached pages, by first position.
    pub closed spec fn pages(&self) -> Map<u64, Seq<RowObject<R>>> {
        self.pages@.map_values(|p: CachedPage<R>| p.0@)
    }

    /// The cached page starts from least to most recently used.
    pub closed spec fn recency(&self) -> Seq<u64> {
        self.lru@
    }

    /// The recency order names each cached page exactly once, and the cache
    /// holds at least one and at most `capacity` pages.
    pub closed spec fn wf(&self) -> bool {
        &&& self.max_pages >= 1
        &&& self.lru@.no_duplicates()
        &&& forall|k: u64| #[trigger] self.pages@.contains_key(k) <==> self.lru@.contains(k)
        &&& self.pages@.len() <= self.max_pages
    }

    /// The page that inserting `page_start` pushes out: the least recently
    /// used one, when the cache is full and does not hold `page_start` yet.
    pub open spec fn insert_victim(&self, page_start: u64) -> Option<u64> {
        if !self.pages().contains_key(page_start) && self.pages().len() == self.capacity() {
            Some(self.recency()[0])
        } else {
            None
        }
    }

    /// The cached pages after `objects` were stored under `page_start`.
    pub open spec fn pages_after_insert(&self, page_start: u64, objects: Seq<RowObject<R>>) -> Map<
        u64,
        Seq<RowObject<R>>,
    > {
        match self.insert_victim(page_start) {
            Some(victim) => self.pages().insert(page_start, objects).remove(victim),
            None => self.pages().insert(page_start, objects),
        }
    }

    /// The recency order after a page was stored under `page_start`.
    pub open spec fn recency_after_insert(&self, page_start: u64) -> Seq<u64> {
        match self.insert_victim(page_start) {
            Some(victim) => touched(self.recency(), page_start).drop_first(),
            None => touched(self.recency(), page_start),
        }
    }

    /// Storing a page keeps it: the new page is cached under its start,
    /// becomes the most recently used, and every other page stays as it
    /// was unless it was the one evicted; the cache stays within its
    /// capacity.
    pub proof fn lemma_insert_keeps_the_new_page(&self, page_start: u64, objects: Seq<RowObject<R>>)
        requires
            self.wf(),
        ensures
            self.insert_victim(page_start) != Some(page_start),
            self.pages_after_insert(page_start, objects).contains_key(page_start),
            self.pages_after_insert(page_start, objects)[page_start] == objects,
            self.recency_after_insert(page_start).last() == page_start,
            self.pages_after_insert(page_start, objects).len() <= self.capacity(),
            forall|k: u64|
                k != page_start && self.pages().contains_key(k) && self.insert_victim(page_start)
                    != Some(k) ==> #[trigger] self.pages_after_insert(page_start, objects).contains_key(k)
                    && self.pages_after_insert(page_start, objects)[k] == self.pages()[k],
    {
        self.lemma_bounded();
        self.lemma_pages_dom();
        let after = self.pages_after_insert(page_start, objects);
        if self.insert_victim(page_start) is Some {
            assert(self.recency().contains(self.recency()[0]));
            let t = touched(self.recency(), page_start);
            assert(t.last() == page_start);
            assert(t.len() == self.recency().remove_value(page_start).len() + 1);
            assert(t.len() >= 2) by {
                assert(!self.recency().contains(page_start));
                self.recency().index_of_first_ensures(page_start);
            }
            assert(t.drop_first().last() == t[t.len() - 1]);
            assert(after.dom() =~= self.pages().dom().remove(self.recency()[0]).insert(page_start));
            assert(self.pages().dom().contains(self.recency()[0]));
            assert(self.pages().dom().remove(self.recency()[0]).len() == self.pages().len() - 1);
        } else {
            if self.pages().contains_key(page_start) {
                assert(after.dom() =~= self.pages().dom());
            } else {
                assert(after.dom() =~= self.pages().dom().insert(page_start));
            }
        }
    }

    /// The most recently used page is not the next one evicted, unless the
    /// cache holds a single page.
    pub proof fn lemma_most_recent_page_survives(&self, page_start: u64)
        requires
            self.wf(),
            self.capacity() >= 2,
            self.recency().len() > 0,
        ensures
            self.insert_victim(page_start) != Some(self.recency().last()),
    {
        self.lemma_bounded();
        if self.insert_victim(page_start) is Some {
            assert(self.recency().len() >= 2);
        }
    }

    proof fn lemma_pages_dom(&self)
        ensures
            self.pages().dom() == self.pages@.dom(),
            self.pages().len() == self.pages@.len(),
    {
        assert(self.pages().dom() =~= self.pages@.dom());
    }

    /// A cache never holds more pages than its capacity, and remembers the
    /// recency of exactly the pages it holds.
    pub proof fn lemma_bounded(&self)
        requires
            self.wf(),
        ensures
            self.pages().len() <= self.capacity(),
            self.capacity() >= 1,
            self.recency().no_duplicates(),
            forall|k: u64| #[trigger] self.pages().contains_key(k) <==> self.recency().contains(k),
            self.recency().len() == self.pages().len(),
    {
        self.lemma_pages_dom();
        self.lru@.unique_seq_to_set();
        assert(self.lru@.to_set() =~= self.pages@.dom());
    }

    /// A cache that holds at most `max_pages` pages, and at least one.
    pub fn new(max_pages: usize) -> (cache: Self)
        ensures
            cache.wf(),
            cache.capacity() == if max_pages >= 1 { max_pages as nat } else { 1 },
            cache.pages() == Map::<u64, Seq<RowObject<R>>>::empty(),
            cache.recency() == Seq::<u64>::empty(),
    {
        let cache = PageCache {
            max_pages: if max_pages >= 1 { max_pages } else { 1 },
            pages: HashMap::new(),
            lru: VecDeque::new(),
        };
        proof {
            assert(cache.pages() =~= Map::<u64, Seq<RowObject<R>>>::empty());
        }
        cache
    }

    /// Drops every page.
    pub fn clear(&mut self)
        requires
            old(self).wf(),
        ensures
            final(self).wf(),
            final(self).capacity() == old(self).capacity(),
            final(self).pages() == Map::<u64, Seq<RowObject<R>>>::empty(),
            final(self).recency() == Seq::<u64>::empty(),
    {
        self.pages.clear();
        self.lru.clear();
        proof {
            assert(self.pages() =~= Map::<u64, Seq<RowObject<R>>>::empty());
        }
    }

    /// Whether the page that starts at `page_start` is cached.
    pub fn contains(&self, page_start: u64) -> (found: bool)
        ensures
            found == self.pages().contains_key(page_start),
    {
        self.pages.contains_key(&page_start)
    }

    /// Moves `page_start` to the most recently used end of the order.
    fn touch(&mut self, page_start: u64)
        requires
            old(self).lru@.no_duplicates(),
        ensures
            final(self).lru@ == touched(old(self).lru@, page_start),
            final(self).lru@.no_duplicates(),
            final(self).max_pages == old(self).max_pages,
            final(self).pages == old(self).pages,
            forall|k: u64| #[trigger]
                final(self).lru@.contains(k) <==> (old(self).lru@.contains(k) || k == page_start),
    {
        let ghost before = self.lru@;
        let mut i: usize = 0;
        let mut found = false;
        while i < self.lru.len() && !found
            invariant
                self.lru@ == before,
                i <= self.lru@.len(),
                found ==> i < self.lru@.len() && self.lru@[i as int] == page_start,
                forall|j: int| 0 <= j < i ==> self.lru@[j] != page_start,
            decreases self.lru@.len() - i, if found { 0int } else { 1int },
        {
            if self.lru[i] == page_start {
                found = true;
            } else {
                i += 1;
            }
        }
        proof {
            before.index_of_first_ensures(page_start);
        }
        if found {
            proof {
                let k = before.index_of_first(page_start)->0;
                assert(before.contains(page_start));
                assert(!(k < i as int));
                assert(!((i as int) < k));
            }
            self.lru.remove(i);
        } else {
            proof {
                assert(!before.contains(page_start));
            }
        }
        assert(self.lru@ == before.remove_value(page_start));
        self.lru.push_back(page_start);
        proof {
            let r = before.remove_value(page_start);
            assert forall|k: u64| #[trigger] self.lru@.contains(k) <==> (before.contains(k) || k == page_start) by {
                if before.contains(page_start) {
                    before.index_of_first_ensures(page_start);
                    let idx = before.index_of_first(page_start)->0;
                    if before.contains(k) && k != page_start {
                        let w = choose|w: int| 0 <= w < before.len() && before[w] == k;
                        if w < idx {
                            assert(r[w] == k);
                        } else {
                            assert(r[w - 1] == k);
                        }
                        assert(self.lru@[w - (if w < idx { 0int } else { 1int })] == k);
                    }
                    if self.lru@.contains(k) && k != page_start {
                        let w = choose|w: int| 0 <= w < self.lru@.len() && self.lru@[w] == k;
                        if w < idx {
                            assert(before[w] == k);
                        } else {
                            assert(before[w + 1] == k);
                        }
                    }
                } else {
                    before.index_of_first_ensures(page_start);
                    if before.contains(k) {
                        let w = choose|w: int| 0 <= w < before.len() && before[w] == k;
                        assert(self.lru@[w] == k);
                    }
                }
                if k == page_start {
                    assert(self.lru@[self.lru@.len() - 1] == k);
                }
            }
            assert forall|a: int, b: int| 0 <= a < b < self.lru@.len() implies self.lru@[a] != self.lru@[b] by {
                before.index_of_first_ensures(page_start);
                if b == self.lru@.len() - 1 {
                    if before.contains(page_start) {
                        let idx = before.index_of_first(page_start)->0;
                        if a < idx {
                            assert(before[a] == self.lru@[a]);
                        } else {
                            assert(before[a + 1] == self.lru@[a]);
                        }
                    } else {
                        assert(before[a] == self.lru@[a]);
                        assert(before.contains(before[a]));
                    }
                } else if before.contains(page_start) {
                    let idx = before.index_of_first(page_start)->0;
                    let ia = if a < idx { a } else { a + 1 };
                    let ib = if b < idx { b } else { b + 1 };
                    assert(before[ia] == self.lru@[a]);
                    assert(before[ib] == self.lru@[b]);
                } else {
                    assert(before[a] == self.lru@[a]);
                    assert(before[b] == self.lru@[b]);
                }
            }
        }
    }
}


impl<R> PageCache<R> {
    /// Stores `page` under `page_start`, marks it most recently used, and
    /// evicts the least recently used other page while the cache is over its
    /// capacity. Returns the starts of the evicted pages.
    pub fn insert(&mut self, page_start: u64, page: CachedPage<R>) -> (evicted: Vec<u64>)
        requires
            old(self).wf(),
        ensures
            final(self).wf(),
            final(self).capacity() == old(self).capacity(),
            evicted@ == match old(self).insert_victim(page_start) {
                Some(victim) => seq![victim],
                None => Seq::<u64>::empty(),
            },
            final(self).pages() == old(self).pages_after_insert(page_start, page.0@),
            final(self).recency() == old(self).recency_after_insert(page_start),
    {
        proof {
            old(self).lemma_pages_dom();
        }
        let ghost stored = page.0@;
        let ghost grown = old(self).pages@.insert(page_start, page);
        let ghost order = touched(old(self).lru@, page_start);
        let ghost was_new = !old(self).pages@.contains_key(page_start);
        self.pages.insert(page_start, page);
        self.touch(page_start);
        proof {
            if was_new {
                assert(!old(self).lru@.contains(page_start));
                if old(self).pages@.len() == self.max_pages {
                    assert(old(self).lru@.len() >= 1) by {
                        if old(self).lru@.len() == 0 {
                            assert forall|k: u64| !old(self).pages@.contains_key(k) by {
                                if old(self).pages@.contains_key(k) {
                                    assert(old(self).lru@.contains(k));
                                }
                            }
                            assert(old(self).pages@.dom() =~= Set::<u64>::empty());
                        }
                    }
                    old(self).lru@.index_of_first_ensures(page_start);
                    assert(order[0] == old(self).lru@[0]);
                    assert(order[0] != page_start);
                }
            }
            assert(grown.len() <= self.max_pages + 1);
            assert(grown.len() == self.max_pages + 1 ==> was_new && old(self).pages@.len() == self.max_pages);
        }
        let mut evicted: Vec<u64> = Vec::new();
        while self.pages.len() > self.max_pages
            invariant
                self.max_pages == old(self).max_pages,
                self.max_pages >= 1,
                grown.len() <= self.max_pages + 1,
                grown.len() == self.max_pages + 1 ==> was_new && old(self).pages@.len() == self.max_pages,
                grown.len() == self.max_pages + 1 ==> order.len() >= 2 && order[0] != page_start
                    && order[0] == old(self).lru@[0],
                order.no_duplicates(),
                forall|k: u64| #[trigger] order.contains(k) <==> grown.contains_key(k),
                (evicted@ == Seq::<u64>::empty() && self.lru@ == order && self.pages@ == grown)
                    || (evicted@ == seq![order[0]] && self.lru@ == order.drop_first()
                    && self.pages@ == grown.remove(order[0]) && self.pages@.len() <= self.max_pages
                    && grown.len() == self.max_pages + 1),
            decreases self.lru@.len(),
        {
            match self.lru.pop_front() {
                Some(oldest) => {
                    if oldest != page_start && self.pages.remove(&oldest).is_some() {
                        evicted.push(oldest);
                    }
                    proof {
                        if grown.len() == self.max_pages + 1 {
                            assert(order.contains(order[0]));
                            assert(grown.contains_key(order[0]));
                            assert(grown.remove(order[0]).len() == grown.len() - 1);
                        }
                    }
                },
                None => {},
            }
        }
        proof {
            let after = if evicted@.len() == 0 { grown } else { grown.remove(order[0]) };
            assert(self.pages@ == after);
            if evicted@.len() == 0 {
                assert(grown.len() <= self.max_pages);
                assert(!(was_new && old(self).pages@.len() == self.max_pages)) by {
                    if was_new && old(self).pages@.len() == self.max_pages {
                        assert(grown.len() == old(self).pages@.len() + 1);
                    }
                }
            } else {
                assert(was_new && old(self).pages@.len() == self.max_pages);
            }
            assert(self.pages() =~= match old(self).insert_victim(page_start) {
                Some(victim) => old(self).pages().insert(page_start, stored).remove(victim),
                None => old(self).pages().insert(page_start, stored),
            });
            assert forall|k: u64| self.pages@.contains_key(k) <==> self.lru@.contains(k) by {
                if evicted@.len() != 0 {
                    if self.lru@.contains(k) {
                        let w = choose|w: int| 0 <= w < self.lru@.len() && self.lru@[w] == k;
                        assert(order[w + 1] == k);
                        assert(order.contains(k));
                    }
                    if self.pages@.contains_key(k) {
                        assert(order.contains(k));
                        let w = choose|w: int| 0 <= w < order.len() && order[w] == k;
                        assert(w != 0);
                        assert(self.lru@[w - 1] == k);
                    }
                }
            }
        }
        evicted
    }

    /// Replaces the cached page that starts at `page_start` without
    /// changing the recency order.
    pub fn overwrite(&mut self, page_start: u64, page: CachedPage<R>)
        requires
            old(self).wf(),
            old(self).pages().contains_key(page_start),
        ensures
            final(self).wf(),
            final(self).capacity() == old(self).capacity(),
            final(self).pages() == old(self).pages().insert(page_start, page.0@),
            final(self).recency() == old(self).recency(),
    {
        let ghost stored = page.0@;
        proof {
            old(self).lemma_pages_dom();
        }
        self.pages.insert(page_start, page);
        proof {
            assert(self.pages@.dom() =~= old(self).pages@.dom());
            assert(self.pages() =~= old(self).pages().insert(page_start, stored));
        }
    }
}

impl<R: ExactCopy> PageCache<R> {
    /// The object at `offset` of the cached page that starts at
    /// `page_start`; a hit marks the page most recently used.
    pub fn item(&mut self, page_start: u64, offset: usize) -> (item: Option<RowObject<R>>)
        requires
            old(self).wf(),
        ensures
            final(self).wf(),
            final(self).capacity() == old(self).capacity(),
            final(self).pages() == old(self).pages(),
            if old(self).pages().contains_key(page_start) && offset < old(self).pages()[page_start].len() {
                &&& item == Some(old(self).pages()[page_start][offset as int])
                &&& final(self).recency() == touched(old(self).recency(), page_start)
            } else {
                &&& item is None
                &&& final(self).recency() == old(self).recency()
            },
    {
        let item = match self.pages.get(&page_start) {
            Some(page) => {
                if offset < page.0.len() {
                    Some(page.0[offset].exact_copy())
                } else {
                    None
                }
            },
            None => None,
        };
        if item.is_some() {
            self.touch(page_start);
            proof {
                assert(old(self).lru@.contains(page_start));
                assert forall|k: u64| self.pages@.contains_key(k) <==> self.lru@.contains(k) by {}
            }
        }
        item
    }

    /// A copy of the objects of the cached page that starts at
    /// `page_start`; a hit marks the page most recently used.
    pub fn page_items(&mut self, page_start: u64) -> (items: Option<Vec<RowObject<R>>>)
        requires
            old(self).wf(),
        ensures
            final(self).wf(),
            final(self).capacity() == old(self).capacity(),
            final(self).pages() == old(self).pages(),
            match items {
                Some(v) => {
                    &&& old(self).pages().contains_key(page_start)
                    &&& v@ == old(self).pages()[page_start]
                    &&& final(self).recency() == touched(old(self).recency(), page_start)
                },
                None => {
                    &&& !old(self).pages().contains_key(page_start)
                    &&& final(self).recency() == old(self).recency()
                },
            },
    {
        let items = match self.pages.get(&page_start) {
            Some(page) => Some(copy_objects(&page.0)),
            None => None,
        };
        if items.is_some() {
            self.touch(page_start);
            proof {
                assert(old(self).lru@.contains(page_start));
                assert forall|k: u64| self.pages@.contains_key(k) <==> self.lru@.contains(k) by {}
            }
        }
        items
    }
}

} // verus!
