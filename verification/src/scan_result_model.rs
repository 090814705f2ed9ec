//! The scan results as a virtual list model: a bounded cache of loaded
//! pages, placeholders for pages being loaded, and the events its owner
//! carries out.
use crate::bridge::{ScanHit, ScanPage};
use crate::page_cache::{
    CachedPage, ExactCopy, PageCache, RowObject, copy_objects, handle_after, next_handle_after,
    objects_view, touched,
};
use crate::paging::{
    lemma_page_start_bounds, min_u64, page_start_of, saturating_sum, shown_rows, visible_for,
};
use vstd::prelude::*;

verus! {

broadcast use vstd::std_specs::hash::group_hash_axioms;

/// The largest page that the scan result list asks the engine for.
pub const MAX_BRIDGE_PAGE_SIZE: u32 = 256;

/// The number of pages that the scan result list keeps by default.
pub const DEFAULT_CACHE_PAGES: usize = 16;

pub const SCAN_CHANGED_WHILE_LOADING: &'static str = "Scan results changed while a visible page was loading.";

pub const SCAN_PAGING_CONTRACT: &'static str = "The scan result generation changed its paging contract.";

pub const UNEXPECTED_SCAN_PAGE_LENGTH: &'static str = "The engine returned an unexpected scan-result page length.";

/// A problem that the model reports to its owner.
#[derive(Clone, Debug, Eq, PartialEq)]
pub enum ModelIssue {
    /// One page could not be shown; the rest of the model stays usable.
    Page(String),
    /// The engine's data changed under the model, which has been cleared.
    Stale(String),
}

/// A model issue with its message as text.
pub enum IssueView {
    Page(Seq<char>),
    Stale(Seq<char>),
}

impl View for ModelIssue {
    type V = IssueView;

    open spec fn view(&self) -> IssueView {
        match self {
            ModelIssue::Page(message) => IssueView::Page(message@),
            ModelIssue::Stale(message) => IssueView::Stale(message@),
        }
    }
}

/// What the scan result list shows at one position.
#[derive(Clone, Debug, Eq, PartialEq)]
pub enum VirtualScanRow {
    Loading { index: u64 },
    Loaded { index: u64, address: u64, value: String },
    Error { index: u64, message: String },
}

/// A row of the scan result list with its texts as character sequences.
pub enum ScanRowView {
    Loading { index: u64 },
    Loaded { index: u64, address: u64, value: Seq<char> },
    Error { index: u64, message: Seq<char> },
}

impl View for VirtualScanRow {
    type V = ScanRowView;

    open spec fn view(&self) -> ScanRowView {
        match self {
            VirtualScanRow::Loading { index } => ScanRowView::Loading { index: *index },
            VirtualScanRow::Loaded { index, address, value } => ScanRowView::Loaded {
                index: *index,
                address: *address,
                value: value@,
            },
            VirtualScanRow::Error { index, message } => ScanRowView::Error {
                index: *index,
                message: message@,
            },
        }
    }
}

impl ExactCopy for VirtualScanRow {
    fn exact_copy(&self) -> (copy: Self) {
        match self {
            VirtualScanRow::Loading { index } => VirtualScanRow::Loading { index: *index },
            VirtualScanRow::Loaded { index, address, value } => VirtualScanRow::Loaded {
                index: *index,
                address: *address,
                value: value.clone(),
            },
            VirtualScanRow::Error { index, message } => VirtualScanRow::Error {
                index: *index,
                message: message.clone(),
            },
        }
    }
}

/// What the owner of the model has to carry out after a call: notify the
/// list view, pass an issue to its handler, or schedule a page load.
#[derive(Clone, Debug, Eq, PartialEq)]
pub enum ModelEvent {
    ItemsChanged { position: u32, removed: u32, added: u32 },
    Issue(ModelIssue),
    ScheduleLoad { generation: u64, page_start: u64 },
}

/// A model event with its texts as character sequences.
pub enum EventView {
    ItemsChanged { position: u32, removed: u32, added: u32 },
    Issue(IssueView),
    ScheduleLoad { generation: u64, page_start: u64 },
}

impl View for ModelEvent {
    type V = EventView;

    open spec fn view(&self) -> EventView {
        match self {
            ModelEvent::ItemsChanged { position, removed, added } => EventView::ItemsChanged {
                position: *position,
                removed: *removed,
                added: *added,
            },
            ModelEvent::Issue(issue) => EventView::Issue(issue@),
            ModelEvent::ScheduleLoad { generation, page_start } => EventView::ScheduleLoad {
                generation: *generation,
                page_start: *page_start,
            },
        }
    }
}

/// The placeholder objects of a page whose load has been scheduled.
pub struct PendingPage {
    pub generation: u64,
    pub page_start: u64,
    pub items: Vec<RowObject<VirtualScanRow>>,
}

/// A pending page with its objects as views.
pub struct PendingView {
    pub generation: u64,
    pub page_start: u64,
    pub items: Seq<RowObject<ScanRowView>>,
}

impl View for PendingPage {
    type V = PendingView;

    open spec fn view(&self) -> PendingView {
        PendingView {
            generation: self.generation,
            page_start: self.page_start,
            items: objects_view(self.items@),
        }
    }
}

/// The whole state of a scan result model.
#[verifier::ext_equal]
pub struct ScanResultState {
    pub generation: u64,
    pub total_count: u64,
    pub visible_count: u32,
    pub page_size: u32,
    pub cache_pages: usize,
    pub configured: bool,
    pub next_handle: u64,
    pub pages: Map<u64, Seq<RowObject<ScanRowView>>>,
    pub recency: Seq<u64>,
    pub pending: Seq<PendingView>,
    pub events: Seq<EventView>,
}

/// The placeholders of `count` positions from `page_start`.
pub open spec fn placeholder_objects(page_start: u64, count: nat, first_handle: u64) -> Seq<
    RowObject<ScanRowView>,
> {
    Seq::new(
        count,
        |i: int|
            RowObject {
                handle: handle_after(first_handle, i as nat),
                row: ScanRowView::Loading { index: (page_start + i) as u64 },
            },
    )
}

/// The row objects of the scan `hits` from `page_start`.
pub open spec fn loaded_objects(page_start: u64, hits: Seq<ScanHit>, first_handle: u64) -> Seq<
    RowObject<ScanRowView>,
> {
    Seq::new(
        hits.len(),
        |i: int|
            RowObject {
                handle: handle_after(first_handle, i as nat),
                row: ScanRowView::Loaded {
                    index: vstd::wrapping::u64_specs::wrapping_add(page_start, i as u64),
                    address: hits[i].address,
                    value: hits[i].value@,
                },
            },
    )
}

/// The error rows of `count` positions from `page_start`.
pub open spec fn error_objects(
    page_start: u64,
    count: nat,
    message: Seq<char>,
    first_handle: u64,
) -> Seq<RowObject<ScanRowView>> {
    Seq::new(
        count,
        |i: int|
            RowObject {
                handle: handle_after(first_handle, i as nat),
                row: ScanRowView::Error { index: (page_start + i) as u64, message },
            },
    )
}

impl ScanResultState {
    /// The notification for the shown part of the page at `page_start`.
    pub open spec fn notify(self, page_start: u64) -> Seq<EventView> {
        if page_start < self.visible_count as u64 {
            let n = shown_rows(self.page_size, self.visible_count, page_start);
            seq![EventView::ItemsChanged { position: page_start as u32, removed: n as u32, added: n as u32 }]
        } else {
            Seq::empty()
        }
    }

    /// The page that storing a page at `page_start` evicts.
    pub open spec fn victim(self, page_start: u64) -> Option<u64> {
        if !self.pages.contains_key(page_start) && self.pages.len() == self.cache_pages as nat {
            Some(self.recency[0])
        } else {
            None
        }
    }

    /// The state after `objects` were stored as the page at `page_start`.
    pub open spec fn with_page(self, page_start: u64, objects: Seq<RowObject<ScanRowView>>) -> Self {
        match self.victim(page_start) {
            Some(victim) => ScanResultState {
                pages: self.pages.insert(page_start, objects).remove(victim),
                recency: touched(self.recency, page_start).drop_first(),
                events: self.events + self.notify(page_start) + self.notify(victim),
                ..self
            },
            None => ScanResultState {
                pages: self.pages.insert(page_start, objects),
                recency: touched(self.recency, page_start),
                events: self.events + self.notify(page_start),
                ..self
            },
        }
    }

    /// The state after `issue` was passed to the issue handler, if any.
    pub open spec fn reported(self, issue: IssueView) -> Self {
        if self.configured {
            ScanResultState { events: self.events.push(EventView::Issue(issue)), ..self }
        } else {
            self
        }
    }

    /// The state after the model was emptied and detached from its loader.
    pub open spec fn cleared(self) -> Self {
        ScanResultState {
            generation: 0,
            total_count: 0,
            visible_count: 0,
            configured: false,
            pages: Map::empty(),
            recency: Seq::empty(),
            pending: Seq::empty(),
            events: if self.visible_count > 0 {
                self.events.push(
                    EventView::ItemsChanged { position: 0, removed: self.visible_count, added: 0 },
                )
            } else {
                self.events
            },
            ..self
        }
    }

    /// The state after the model was cleared because of `issue`, which goes
    /// to the issue handler that was attached before.
    pub open spec fn invalidated(self, issue: IssueView) -> Self {
        if self.configured {
            ScanResultState {
                events: self.cleared().events.push(EventView::Issue(issue)),
                ..self.cleared()
            }
        } else {
            self.cleared()
        }
    }

    /// The state after the scan `hits` were stored as the page at
    /// `page_start`, each in a new row object.
    pub open spec fn with_hits(self, page_start: u64, hits: Seq<ScanHit>) -> Self {
        ScanResultState {
            next_handle: handle_after(self.next_handle, hits.len()),
            ..self
        }.with_page(page_start, loaded_objects(page_start, hits, self.next_handle))
    }

    /// The state after the shown positions of the page at `page_start`
    /// were filled with error rows that carry `message`, and the message
    /// was reported.
    pub open spec fn with_error_page(self, page_start: u64, message: Seq<char>) -> Self {
        let n = shown_rows(self.page_size, self.visible_count, page_start);
        ScanResultState {
            next_handle: handle_after(self.next_handle, n),
            ..self
        }.with_page(page_start, error_objects(page_start, n, message, self.next_handle)).reported(
            IssueView::Page(message),
        )
    }

    /// The state after the engine returned `page` for a load of generation
    /// `expected_generation` at `page_start`: a stale page or one of another
    /// generation or paging contract clears the model, a page error or a
    /// page of the wrong length fills the page with error rows, and a valid
    /// page replaces the placeholders with its hits.
    pub open spec fn after_page(
        self,
        expected_generation: u64,
        page_start: u64,
        page_size: u32,
        page: ScanPage,
    ) -> Self {
        if page.stale || page.generation != expected_generation {
            self.invalidated(IssueView::Stale(SCAN_CHANGED_WHILE_LOADING@))
        } else if page.error_message@.len() > 0 {
            self.with_error_page(page_start, page.error_message@)
        } else if page.start != page_start || page.total_count != self.total_count {
            self.invalidated(IssueView::Stale(SCAN_PAGING_CONTRACT@))
        } else if saturating_sum(page_start, page.rows@.len()) != min_u64(
            saturating_sum(page_start, page_size as nat),
            page.total_count,
        ) {
            self.with_error_page(page_start, UNEXPECTED_SCAN_PAGE_LENGTH@)
        } else {
            self.with_hits(page_start, page.rows@)
        }
    }

    /// The state after the loader answered a load of generation
    /// `expected_generation` at `page_start` with `result`.
    pub open spec fn after_page_result(
        self,
        expected_generation: u64,
        page_start: u64,
        page_size: u32,
        result: Result<ScanPage, String>,
    ) -> Self {
        match result {
            Ok(page) => self.after_page(expected_generation, page_start, page_size, page),
            Err(message) => self.with_error_page(page_start, message@),
        }
    }

    /// The state without the pending page of `generation` at `page_start`.
    pub open spec fn without_pending(self, generation: u64, page_start: u64) -> Self {
        match pending_position(self.pending, generation, page_start) {
            Some(i) => ScanResultState { pending: self.pending.remove(i), ..self },
            None => self,
        }
    }

    /// What the list view gets at `position`, and the state after it asked:
    /// the cached object, which marks its page most recently used; else the
    /// placeholder of the page's pending load; else a new placeholder page
    /// whose load is scheduled.
    pub open spec fn item_lookup(self, position: u32) -> (Option<RowObject<ScanRowView>>, Self) {
        if position >= self.visible_count {
            (None, self)
        } else {
            let page_start = page_start_of(position, self.page_size);
            let offset = position - page_start;
            if self.pages.contains_key(page_start) && offset < self.pages[page_start].len() {
                (
                    Some(self.pages[page_start][offset]),
                    ScanResultState { recency: touched(self.recency, page_start), ..self },
                )
            } else {
                match pending_position(self.pending, self.generation, page_start) {
                    Some(i) => (Some(self.pending[i].items[offset]), self),
                    None => {
                        let n = shown_rows(self.page_size, self.visible_count, page_start);
                        let items = placeholder_objects(page_start, n, self.next_handle);
                        (
                            Some(items[offset]),
                            ScanResultState {
                                pending: self.pending.push(
                                    PendingView { generation: self.generation, page_start, items },
                                ),
                                next_handle: handle_after(self.next_handle, n),
                                events: self.events.push(
                                    EventView::ScheduleLoad { generation: self.generation, page_start },
                                ),
                                ..self
                            },
                        )
                    },
                }
            }
        }
    }

    /// The model shows nothing and has no loader.
    pub open spec fn is_cleared(self) -> bool {
        &&& self.generation == 0
        &&& self.total_count == 0
        &&& self.visible_count == 0
        &&& !self.configured
        &&& self.pages.dom() == Set::<u64>::empty()
        &&& self.pending.len() == 0
    }

    /// The state after `configure` with the given counts.
    pub open spec fn configured_with(self, generation: u64, total_count: u64) -> Self {
        let visible = visible_for(total_count);
        ScanResultState {
            generation,
            total_count,
            visible_count: visible,
            configured: true,
            pages: Map::empty(),
            recency: Seq::empty(),
            pending: Seq::empty(),
            events: if self.visible_count > 0 || visible > 0 {
                self.events.push(
                    EventView::ItemsChanged { position: 0, removed: self.visible_count, added: visible },
                )
            } else {
                self.events
            },
            ..self
        }
    }
}

/// A scan result list that shows `total_count` hits through a bounded cache
/// of pages, loads missing pages on demand, and tells its owner what to do
/// through a queue of events.
pub struct ScanResultModel {
    generation: u64,
    total_count: u64,
    visible_count: u32,
    page_size: u32,
    cache_pages: usize,
    cache: PageCache<VirtualScanRow>,
    pending: Vec<PendingPage>,
    configured: bool,
    next_handle: u64,
    events: Vec<ModelEvent>,
}

impl View for ScanResultModel {
    type V = ScanResultState;

    closed spec fn view(&self) -> ScanResultState {
        ScanResultState {
            generation: self.generation,
            total_count: self.total_count,
            visible_count: self.visible_count,
            page_size: self.page_size,
            cache_pages: self.cache_pages,
            configured: self.configured,
            next_handle: self.next_handle,
            pages: self.cache.pages().map_values(
                |objects: Seq<RowObject<VirtualScanRow>>| objects_view(objects),
            ),
            recency: self.cache.recency(),
            pending: self.pending@.map_values(|p: PendingPage| p@),
            events: self.events@.map_values(|e: ModelEvent| e@),
        }
    }
}

/// The position in `pending` of the page of `generation` at `page_start`.
pub open spec fn pending_position(pending: Seq<PendingView>, generation: u64, page_start: u64) -> Option<
    int,
> {
    if exists|i: int|
        0 <= i < pending.len() && pending[i].generation == generation && pending[i].page_start
            == page_start {
        Some(
            choose|i: int|
                0 <= i < pending.len() && pending[i].generation == generation
                    && pending[i].page_start == page_start,
        )
    } else {
        None
    }
}

/// A pending page is a page of placeholders for the current generation,
/// one for each shown position of that page.
pub open spec fn pending_wf(state: ScanResultState, p: PendingView) -> bool {
    &&& p.generation == state.generation
    &&& p.page_start < state.visible_count as u64
    &&& p.items.len() == shown_rows(state.page_size, state.visible_count, p.page_start)
    &&& forall|j: int|
        0 <= j < p.items.len() ==> (#[trigger] p.items[j]).row == (ScanRowView::Loading {
            index: (p.page_start + j) as u64,
        })
}

/// The position that a scan row names.
pub open spec fn scan_row_index(row: ScanRowView) -> u64 {
    match row {
        ScanRowView::Loading { index } => index,
        ScanRowView::Loaded { index, .. } => index,
        ScanRowView::Error { index, .. } => index,
    }
}

/// Every object of `objects` stands at the position that its row names,
/// counted from `page_start`.
pub open spec fn objects_at(page_start: u64, objects: Seq<RowObject<ScanRowView>>) -> bool {
    forall|j: int|
        0 <= j < objects.len() && page_start + j <= u64::MAX ==> scan_row_index(
            (#[trigger] objects[j]).row,
        ) == page_start + j
}

/// Every cached object stands at the position that its row names: the
/// object at offset `j` of the page at `k` has index `k + j`.
pub open spec fn pages_indexed(pages: Map<u64, Seq<RowObject<ScanRowView>>>) -> bool {
    forall|k: u64| pages.contains_key(k) ==> objects_at(k, #[trigger] pages[k])
}

impl ScanResultState {
    /// The invariant of the model's state.
    pub open spec fn wf(self) -> bool {
        &&& 1 <= self.page_size <= MAX_BRIDGE_PAGE_SIZE
        &&& self.cache_pages >= 1
        &&& self.pages.len() <= self.cache_pages
        &&& self.recency.no_duplicates()
        &&& forall|k: u64| #[trigger] self.pages.contains_key(k) <==> self.recency.contains(k)
        &&& pages_indexed(self.pages)
        &&& self.visible_count == visible_for(self.total_count)
        &&& forall|i: int| 0 <= i < self.pending.len() ==> pending_wf(self, #[trigger] self.pending[i])
        &&& forall|i: int, j: int|
            0 <= i < j < self.pending.len() ==> #[trigger] self.pending[i].page_start
                != #[trigger] self.pending[j].page_start
    }
}

impl ScanResultState {
    /// The invariant only depends on the counts, the page size, the cache
    /// size and the pending pages, besides the number of cached pages.
    pub proof fn lemma_wf_frame(self, other: Self)
        requires
            self.wf(),
            other.generation == self.generation,
            other.total_count == self.total_count,
            other.visible_count == self.visible_count,
            other.page_size == self.page_size,
            other.cache_pages == self.cache_pages,
            other.pending == self.pending,
            other.pages.len() <= other.cache_pages,
            other.recency.no_duplicates(),
            forall|k: u64| #[trigger] other.pages.contains_key(k) <==> other.recency.contains(k),
            pages_indexed(other.pages),
        ensures
            other.wf(),
    {
        assert forall|i: int| 0 <= i < other.pending.len() implies pending_wf(other, #[trigger] other.pending[i]) by {
            assert(pending_wf(self, self.pending[i]));
        }
    }
}

impl ScanResultModel {
    /// The invariant: the state invariant, and the cache agrees with the
    /// recorded capacity.
    pub closed spec fn wf(&self) -> bool {
        &&& self@.wf()
        &&& self.cache.wf()
        &&& self.cache.capacity() == self.cache_pages as nat
    }

    /// A model's state meets the state invariant: among other things, the
    /// positions shown are the total capped at `u32::MAX`, every pending
    /// page holds the placeholders of its positions, and every cached
    /// object stands at the position its row names.
    pub proof fn lemma_state_wf(&self)
        requires
            self.wf(),
        ensures
            self@.wf(),
    {
    }

    proof fn lemma_pages_len(&self)
        requires
            self.cache.wf(),
        ensures
            self@.pages.len() == self.cache.pages().len(),
            self@.pages.dom() == self.cache.pages().dom(),
            self.cache.pages().len() <= self.cache.capacity(),
            self@.recency.no_duplicates(),
            forall|k: u64| #[trigger] self@.pages.contains_key(k) <==> self@.recency.contains(k),
    {
        assert(self@.pages.dom() =~= self.cache.pages().dom());
        self.cache.lemma_bounded();
    }

    /// A model with pages of `page_size` positions, clamped to 1 through
    /// `MAX_BRIDGE_PAGE_SIZE`, and a cache of `cache_pages` pages, at
    /// least one.
    pub fn new(page_size: u32, cache_pages: usize) -> (model: Self)
        ensures
            model.wf(),
            model@ == (ScanResultState {
                generation: 0,
                total_count: 0,
                visible_count: 0,
                page_size: if page_size < 1 {
                    1
                } else if page_size > MAX_BRIDGE_PAGE_SIZE {
                    MAX_BRIDGE_PAGE_SIZE
                } else {
                    page_size
                },
                cache_pages: if cache_pages < 1 { 1 } else { cache_pages },
                configured: false,
                next_handle: 0,
                pages: Map::empty(),
                recency: Seq::empty(),
                pending: Seq::empty(),
                events: Seq::empty(),
            }),
    {
        let clamped = if page_size < 1 {
            1
        } else if page_size > MAX_BRIDGE_PAGE_SIZE {
            MAX_BRIDGE_PAGE_SIZE
        } else {
            page_size
        };
        let pages = if cache_pages < 1 { 1 } else { cache_pages };
        let model = ScanResultModel {
            generation: 0,
            total_count: 0,
            visible_count: 0,
            page_size: clamped,
            cache_pages: pages,
            cache: PageCache::new(cache_pages),
            pending: Vec::new(),
            configured: false,
            next_handle: 0,
            events: Vec::new(),
        };
        proof {
            model.lemma_pages_len();
            assert(model@.pages =~= Map::empty());
            assert(model@.pending =~= Seq::empty());
            assert(model@.events =~= Seq::empty());
        }
        model
    }

    /// The number of scan hits, which may exceed the positions shown.
    pub fn total_count(&self) -> (count: u64)
        ensures
            count == self@.total_count,
    {
        self.total_count
    }

    /// The number of positions the list shows.
    pub fn displayed_count(&self) -> (count: u32)
        ensures
            count == self@.visible_count,
    {
        self.visible_count
    }

    /// The number of positions the list shows, as the list view asks for it.
    pub fn n_items(&self) -> (count: u32)
        ensures
            count == self@.visible_count,
    {
        self.visible_count
    }

    /// The number of rows the cache can hold.
    pub fn cached_row_capacity(&self) -> (capacity: u64)
        requires
            self@.page_size * self@.cache_pages <= u64::MAX,
        ensures
            capacity == self@.page_size * self@.cache_pages,
    {
        self.page_size as u64 * self.cache_pages as u64
    }
}

impl ScanResultModel {
    proof fn lemma_events_push(old_events: Seq<ModelEvent>, event: ModelEvent)
        ensures
            old_events.push(event).map_values(|e: ModelEvent| e@) == old_events.map_values(
                |e: ModelEvent| e@,
            ).push(event@),
    {
        assert(old_events.push(event).map_values(|e: ModelEvent| e@) =~= old_events.map_values(
            |e: ModelEvent| e@,
        ).push(event@));
    }

    /// Shows `total_count` hits of `generation`, of which at most
    /// `u32::MAX` get positions, and attaches the model to a loader and an
    /// issue handler. Cached and pending pages are dropped.
    pub fn configure(&mut self, generation: u64, total_count: u64)
        requires
            old(self).wf(),
        ensures
            final(self).wf(),
            final(self)@ == old(self)@.configured_with(generation, total_count),
    {
        let old_count = self.visible_count;
        let visible_count = if total_count > u32::MAX as u64 {
            u32::MAX
        } else {
            total_count as u32
        };
        self.generation = generation;
        self.total_count = total_count;
        self.visible_count = visible_count;
        self.pending = Vec::new();
        self.cache.clear();
        self.configured = true;
        if old_count > 0 || visible_count > 0 {
            proof {
                Self::lemma_events_push(
                    self.events@,
                    ModelEvent::ItemsChanged { position: 0, removed: old_count, added: visible_count },
                );
            }
            self.events.push(
                ModelEvent::ItemsChanged { position: 0, removed: old_count, added: visible_count },
            );
        }
        proof {
            self.lemma_pages_len();
            assert(self@.pages =~= Map::empty());
            assert(self@.pending =~= Seq::empty());
            assert(self@ =~= old(self)@.configured_with(generation, total_count));
        }
    }

    /// Empties the model and detaches it from its loader and issue handler.
    pub fn clear(&mut self)
        requires
            old(self).wf(),
        ensures
            final(self).wf(),
            final(self)@ == old(self)@.cleared(),
    {
        let old_count = self.visible_count;
        self.visible_count = 0;
        self.generation = 0;
        self.total_count = 0;
        self.pending = Vec::new();
        self.cache.clear();
        self.configured = false;
        if old_count > 0 {
            proof {
                Self::lemma_events_push(
                    self.events@,
                    ModelEvent::ItemsChanged { position: 0, removed: old_count, added: 0 },
                );
            }
            self.events.push(ModelEvent::ItemsChanged { position: 0, removed: old_count, added: 0 });
        }
        proof {
            self.lemma_pages_len();
            assert(self@.pages =~= Map::empty());
            assert(self@.pending =~= Seq::empty());
            assert(self@ =~= old(self)@.cleared());
        }
    }

    /// Passes `issue` to the issue handler, if one is attached.
    fn report_issue(&mut self, issue: ModelIssue)
        requires
            old(self).wf(),
        ensures
            final(self).wf(),
            final(self)@ == old(self)@.reported(issue@),
    {
        if self.configured {
            proof {
                Self::lemma_events_push(self.events@, ModelEvent::Issue(issue));
            }
            self.events.push(ModelEvent::Issue(issue));
        }
        proof {
            assert(self@ =~= old(self)@.reported(issue@));
        }
    }

    /// Clears the model, then passes `issue` to the issue handler that was
    /// attached before.
    fn invalidate(&mut self, issue: ModelIssue)
        requires
            old(self).wf(),
        ensures
            final(self).wf(),
            final(self)@ == old(self)@.invalidated(issue@),
    {
        let had_handler = self.configured;
        self.clear();
        if had_handler {
            proof {
                Self::lemma_events_push(self.events@, ModelEvent::Issue(issue));
            }
            self.events.push(ModelEvent::Issue(issue));
        }
        proof {
            assert(self@ =~= old(self)@.invalidated(issue@));
        }
    }

    /// Hands the queued events to the owner, oldest first, and empties the
    /// queue.
    pub fn take_events(&mut self) -> (events: Vec<ModelEvent>)
        requires
            old(self).wf(),
        ensures
            final(self).wf(),
            events@.map_values(|e: ModelEvent| e@) == old(self)@.events,
            final(self)@ == (ScanResultState { events: Seq::empty(), ..old(self)@ }),
    {
        let mut events: Vec<ModelEvent> = Vec::new();
        std::mem::swap(&mut events, &mut self.events);
        proof {
            assert(self.events@.map_values(|e: ModelEvent| e@) =~= Seq::<EventView>::empty());
            assert(self@ =~= (ScanResultState { events: Seq::empty(), ..old(self)@ }));
        }
        events
    }

    /// Whether a loader and an issue handler are attached.
    pub fn is_configured(&self) -> (configured: bool)
        ensures
            configured == self@.configured,
    {
        self.configured
    }
}

impl ScanResultModel {
    /// Hands out the next row object handle.
    fn allocate_handle(&mut self) -> (handle: u64)
        requires
            old(self).wf(),
        ensures
            final(self).wf(),
            handle == old(self)@.next_handle,
            final(self)@ == (ScanResultState {
                next_handle: next_handle_after(old(self)@.next_handle),
                ..old(self)@
            }),
    {
        let handle = self.next_handle;
        self.next_handle = self.next_handle.wrapping_add(1);
        proof {
            assert(self@ =~= (ScanResultState {
                next_handle: next_handle_after(old(self)@.next_handle),
                ..old(self)@
            }));
        }
        handle
    }

    /// Tells the list view that the shown part of the page at `page_start`
    /// changed.
    fn notify_page(&mut self, page_start: u64)
        requires
            old(self).wf(),
        ensures
            final(self).wf(),
            final(self)@ == (ScanResultState {
                events: old(self)@.events + old(self)@.notify(page_start),
                ..old(self)@
            }),
    {
        let visible_count = self.visible_count as u64;
        if page_start >= visible_count {
            proof {
                assert(old(self)@.notify(page_start) =~= Seq::<EventView>::empty());
                assert(self@ =~= (ScanResultState {
                    events: old(self)@.events + old(self)@.notify(page_start),
                    ..old(self)@
                }));
            }
            return ;
        }
        let page_size = self.page_size as u64;
        let count = if page_size < visible_count - page_start {
            page_size as u32
        } else {
            (visible_count - page_start) as u32
        };
        let event = ModelEvent::ItemsChanged {
            position: page_start as u32,
            removed: count,
            added: count,
        };
        proof {
            Self::lemma_events_push(self.events@, event);
        }
        self.events.push(event);
        proof {
            assert(old(self)@.events + old(self)@.notify(page_start) =~= old(self)@.events.push(event@));
            assert(self@ =~= (ScanResultState {
                events: old(self)@.events + old(self)@.notify(page_start),
                ..old(self)@
            }));
        }
    }

    /// Stores `page` at `page_start`, then notifies the list view of it and
    /// of the page it evicted.
    fn insert_page(&mut self, page_start: u64, page: CachedPage<VirtualScanRow>)
        requires
            old(self).wf(),
            objects_at(page_start, objects_view(page.0@)),
        ensures
            final(self).wf(),
            final(self)@ == old(self)@.with_page(page_start, objects_view(page.0@)),
    {
        let ghost stored = page.0@;
        proof {
            self.lemma_pages_len();
        }
        let evicted = self.cache.insert(page_start, page);
        let ghost after_insert = self@;
        proof {
            let o = old(self)@;
            assert(old(self).cache.insert_victim(page_start) == o.victim(page_start));
            match o.victim(page_start) {
                Some(victim) => {
                    assert(self@.pages =~= o.pages.insert(page_start, objects_view(stored)).remove(victim));
                },
                None => {
                    assert(self@.pages =~= o.pages.insert(page_start, objects_view(stored)));
                },
            }
            self.lemma_pages_len();
            old(self)@.lemma_wf_frame(self@);
        }
        self.notify_page(page_start);
        let mut i: usize = 0;
        while i < evicted.len()
            invariant
                self.wf(),
                evicted@.len() <= 1,
                i <= evicted@.len(),
                evicted@ == match old(self)@.victim(page_start) {
                    Some(victim) => seq![victim],
                    None => Seq::<u64>::empty(),
                },
                self@ == (ScanResultState {
                    events: after_insert.events + old(self)@.notify(page_start) + (if i == 0 {
                        Seq::<EventView>::empty()
                    } else {
                        old(self)@.notify(evicted@[0])
                    }),
                    ..after_insert
                }),
                after_insert.visible_count == old(self)@.visible_count,
                after_insert.page_size == old(self)@.page_size,
            decreases evicted@.len() - i,
        {
            let evicted_start = evicted[i];
            self.notify_page(evicted_start);
            i += 1;
            proof {
                assert(after_insert.events + old(self)@.notify(page_start) + old(self)@.notify(
                    evicted@[0],
                ) =~= after_insert.events + old(self)@.notify(page_start) + Seq::<EventView>::empty()
                    + old(self)@.notify(evicted@[0]));
            }
        }
        proof {
            match old(self)@.victim(page_start) {
                Some(victim) => {},
                None => {
                    assert(after_insert.events + old(self)@.notify(page_start)
                        + Seq::<EventView>::empty() =~= after_insert.events + old(self)@.notify(page_start));
                },
            }
            assert(self@ =~= old(self)@.with_page(page_start, objects_view(stored)));
        }
    }
}

impl ScanResultModel {
    /// Stores the scan `hits` as the page at `page_start`, each in a new
    /// row object.
    fn insert_hits(&mut self, page_start: u64, hits: Vec<ScanHit>)
        requires
            old(self).wf(),
        ensures
            final(self).wf(),
            final(self)@ == old(self)@.with_hits(page_start, hits@),
    {
        let ghost base = self@.next_handle;
        let ghost start = self@;
        let mut items: Vec<RowObject<VirtualScanRow>> = Vec::new();
        let mut offset: usize = 0;
        while offset < hits.len()
            invariant
                self.wf(),
                offset <= hits@.len(),
                self@ == (ScanResultState { next_handle: handle_after(base, offset as nat), ..start }),
                objects_view(items@) == loaded_objects(page_start, hits@, base).take(offset as int),
            decreases hits@.len() - offset,
        {
            let handle = self.allocate_handle();
            let object = RowObject {
                handle,
                row: VirtualScanRow::Loaded {
                    index: page_start.wrapping_add(offset as u64),
                    address: hits[offset].address,
                    value: hits[offset].value.clone(),
                },
            };
            let ghost before = items@;
            items.push(object);
            offset += 1;
            proof {
                assert(objects_view(items@) =~= objects_view(before).push(object@));
                assert(objects_view(items@) =~= loaded_objects(page_start, hits@, base).take(
                    offset as int,
                ));
            }
        }
        proof {
            assert(loaded_objects(page_start, hits@, base).take(hits@.len() as int)
                =~= loaded_objects(page_start, hits@, base));
        }
        self.insert_page(page_start, CachedPage(items));
    }

    /// Fills the shown positions of the page at `page_start` with error rows
    /// that carry `message`, and reports the message.
    fn cache_page_error(&mut self, page_start: u64, message: String)
        requires
            old(self).wf(),
        ensures
            final(self).wf(),
            final(self)@ == old(self)@.with_error_page(page_start, message@),
    {
        let ghost base = self@.next_handle;
        let ghost start = self@;
        let visible_count = self.visible_count as u64;
        let page_size = self.page_size as u64;
        let count: u64 = if page_start < visible_count {
            if page_size < visible_count - page_start {
                page_size
            } else {
                visible_count - page_start
            }
        } else {
            0
        };
        proof {
            assert(count as nat == shown_rows(start.page_size, start.visible_count, page_start));
        }
        let mut items: Vec<RowObject<VirtualScanRow>> = Vec::new();
        let mut offset: u64 = 0;
        while offset < count
            invariant
                self.wf(),
                offset <= count,
                count as nat == shown_rows(start.page_size, start.visible_count, page_start),
                count > 0 ==> page_start + count <= visible_count,
                visible_count == start.visible_count,
                self@ == (ScanResultState { next_handle: handle_after(base, offset as nat), ..start }),
                objects_view(items@) == error_objects(page_start, count as nat, message@, base).take(
                    offset as int,
                ),
            decreases count - offset,
        {
            let handle = self.allocate_handle();
            let object = RowObject {
                handle,
                row: VirtualScanRow::Error { index: page_start + offset, message: message.clone() },
            };
            let ghost before = items@;
            items.push(object);
            offset += 1;
            proof {
                assert(objects_view(items@) =~= objects_view(before).push(object@));
                assert(objects_view(items@) =~= error_objects(
                    page_start,
                    count as nat,
                    message@,
                    base,
                ).take(offset as int));
            }
        }
        proof {
            assert(error_objects(page_start, count as nat, message@, base).take(count as int)
                =~= error_objects(page_start, count as nat, message@, base));
        }
        self.insert_page(page_start, CachedPage(items));
        self.report_issue(ModelIssue::Page(message));
    }
}

impl ScanResultModel {
    /// Takes in a page that the engine returned for a load of generation
    /// `expected_generation` at `page_start`; see `after_page`.
    fn accept_page(&mut self, expected_generation: u64, page_start: u64, page_size: u32, page: ScanPage)
        requires
            old(self).wf(),
        ensures
            final(self).wf(),
            final(self)@ == old(self)@.after_page(expected_generation, page_start, page_size, page),
    {
        if page.stale || page.generation != expected_generation {
            self.invalidate(ModelIssue::Stale(SCAN_CHANGED_WHILE_LOADING.to_owned()));
            return ;
        }
        if !page.error_message.as_str().is_empty() {
            self.cache_page_error(page_start, page.error_message);
            return ;
        }
        if page.start != page_start || page.total_count != self.total_count {
            self.invalidate(ModelIssue::Stale(SCAN_PAGING_CONTRACT.to_owned()));
            return ;
        }
        let returned = page.rows.len() as u64;
        let end = page_start.saturating_add(page_size as u64);
        let expected_end = if end < page.total_count {
            end
        } else {
            page.total_count
        };
        if page_start.saturating_add(returned) != expected_end {
            self.cache_page_error(page_start, UNEXPECTED_SCAN_PAGE_LENGTH.to_owned());
            return ;
        }
        self.insert_hits(page_start, page.rows);
    }

    /// The position of the pending page of `generation` at `page_start`.
    fn find_pending(&self, generation: u64, page_start: u64) -> (position: Option<usize>)
        requires
            self.wf(),
        ensures
            match position {
                Some(i) => {
                    &&& pending_position(self@.pending, generation, page_start) == Some(i as int)
                    &&& i < self.pending@.len()
                },
                None => pending_position(self@.pending, generation, page_start) is None,
            },
    {
        let ghost pending = self@.pending;
        assert(pending.len() == self.pending@.len());
        assert(forall|j: int| 0 <= j < pending.len() ==> pending[j] == #[trigger] self.pending@[j]@);
        let mut i: usize = 0;
        let mut found = false;
        while i < self.pending.len() && !found
            invariant
                pending == self@.pending,
                pending.len() == self.pending@.len(),
                forall|j: int| 0 <= j < pending.len() ==> pending[j] == #[trigger] self.pending@[j]@,
                i <= self.pending@.len(),
                found ==> i < self.pending@.len() && pending[i as int].generation == generation
                    && pending[i as int].page_start == page_start,
                forall|j: int|
                    0 <= j < i ==> !(pending[j].generation == generation && pending[j].page_start
                        == page_start),
            decreases self.pending@.len() - i, if found { 0int } else { 1int },
        {
            proof {
                assert(pending[i as int] == self.pending@[i as int]@);
            }
            if self.pending[i].generation == generation && self.pending[i].page_start == page_start {
                found = true;
            } else {
                i += 1;
            }
        }
        if found {
            proof {
                let c = pending_position(pending, generation, page_start)->0;
                assert(c == i as int) by {
                    if c != i as int {
                        if c < i as int {
                            assert(pending[c].page_start != pending[i as int].page_start);
                        } else {
                            assert(pending[i as int].page_start != pending[c].page_start);
                        }
                    }
                }
            }
            Some(i)
        } else {
            proof {
                assert(pending_position(pending, generation, page_start) is None);
            }
            None
        }
    }

    /// Drops the pending page of `generation` at `page_start`, if any.
    fn remove_pending(&mut self, generation: u64, page_start: u64)
        requires
            old(self).wf(),
        ensures
            final(self).wf(),
            final(self)@ == old(self)@.without_pending(generation, page_start),
    {
        let ghost pending = self@.pending;
        match self.find_pending(generation, page_start) {
            Some(i) => {
                self.pending.remove(i);
                proof {
                    assert(self@.pending =~= pending.remove(i as int));
                    assert(self@ =~= old(self)@.without_pending(generation, page_start));
                    let o = old(self)@;
                    assert forall|a: int| 0 <= a < self@.pending.len() implies pending_wf(
                        self@,
                        #[trigger] self@.pending[a],
                    ) by {
                        if a < i {
                            assert(pending_wf(o, o.pending[a]));
                        } else {
                            assert(pending_wf(o, o.pending[a + 1]));
                        }
                    }
                    assert forall|a: int, b: int| 0 <= a < b < self@.pending.len() implies #[trigger] self@.pending[a].page_start
                        != #[trigger] self@.pending[b].page_start by {
                        let oa = if a < i { a } else { a + 1 };
                        let ob = if b < i { b } else { b + 1 };
                        assert(o.pending[oa].page_start != o.pending[ob].page_start);
                    }
                }
            },
            None => {},
        }
    }

    /// Applies what the loader answered for a load of generation
    /// `expected_generation` at `page_start`: a page goes through
    /// `accept_page`, and a failed load fills the page with error rows and
    /// reports the message.
    pub fn apply_loaded_page(
        &mut self,
        expected_generation: u64,
        page_start: u64,
        page_size: u32,
        result: Result<ScanPage, String>,
    )
        requires
            old(self).wf(),
        ensures
            final(self).wf(),
            final(self)@ == old(self)@.after_page_result(
                expected_generation,
                page_start,
                page_size,
                result,
            ),
    {
        match result {
            Ok(page) => self.accept_page(expected_generation, page_start, page_size, page),
            Err(message) => self.cache_page_error(page_start, message),
        }
    }

    /// Loads the page of generation `expected_generation` at `page_start`
    /// through `loader`, unless the model has moved to another generation
    /// or has no loader; either way the page is no longer pending.
    pub fn load_page<F>(&mut self, expected_generation: u64, page_start: u64, loader: &F) where
        F: Fn(u64, u64, u32) -> Result<ScanPage, String>,

        requires
            old(self).wf(),
            forall|generation: u64, start: u64, count: u32|
                loader.requires((generation, start, count)),
        ensures
            final(self).wf(),
            if old(self)@.generation != expected_generation || expected_generation == 0
                || !old(self)@.configured {
                final(self)@ == old(self)@.without_pending(expected_generation, page_start)
            } else {
                exists|result: Result<ScanPage, String>|
                    loader.ensures((expected_generation, page_start, old(self)@.page_size), result)
                        && final(self)@ == old(self)@.without_pending(
                        expected_generation,
                        page_start,
                    ).after_page_result(expected_generation, page_start, old(self)@.page_size, result)
            },
    {
        if self.generation != expected_generation || expected_generation == 0 || !self.configured {
            self.remove_pending(expected_generation, page_start);
            return ;
        }
        let page_size = self.page_size;
        let result = loader(expected_generation, page_start, page_size);
        let ghost answered = result;
        self.remove_pending(expected_generation, page_start);
        self.apply_loaded_page(expected_generation, page_start, page_size, result);
        proof {
            assert(loader.ensures((expected_generation, page_start, page_size), answered));
        }
    }
}

impl ScanResultModel {
    /// The object the list view shows at `position`; see `item_lookup`.
    pub fn item(&mut self, position: u32) -> (item: Option<RowObject<VirtualScanRow>>)
        requires
            old(self).wf(),
        ensures
            final(self).wf(),
            final(self)@ == old(self)@.item_lookup(position).1,
            match item {
                Some(object) => old(self)@.item_lookup(position).0 == Some(object@),
                None => old(self)@.item_lookup(position).0 is None,
            },
    {
        if position >= self.visible_count {
            return None;
        }
        let page_size = self.page_size;
        proof {
            lemma_page_start_bounds(position, page_size);
        }
        let page_start = ((position / page_size) * page_size) as u64;
        let offset = (position % page_size) as usize;
        proof {
            self.lemma_pages_len();
        }
        let cached = self.cache.item(page_start, offset);
        match cached {
            Some(object) => {
                proof {
                    assert(self@ =~= (ScanResultState {
                        recency: touched(old(self)@.recency, page_start),
                        ..old(self)@
                    }));
                    self.lemma_pages_len();
                    old(self)@.lemma_wf_frame(self@);
                }
                return Some(object);
            },
            None => {},
        }
        proof {
            assert(self@ == old(self)@);
        }
        let generation = self.generation;
        match self.find_pending(generation, page_start) {
            Some(i) => {
                proof {
                    assert(pending_wf(self@, self@.pending[i as int]));
                    assert(self@.pending[i as int] == self.pending@[i as int]@);
                }
                let object = self.pending[i].items[offset].exact_copy();
                proof {
                    assert(objects_view(self.pending@[i as int].items@)[offset as int]
                        == self.pending@[i as int].items@[offset as int]@);
                }
                Some(object)
            },
            None => {
                let ghost base = self@.next_handle;
                let ghost start = self@;
                let visible_count = self.visible_count as u64;
                let count: u64 = if (page_size as u64) < visible_count - page_start {
                    page_size as u64
                } else {
                    visible_count - page_start
                };
                let ghost n = shown_rows(start.page_size, start.visible_count, page_start);
                assert(count as nat == n);
                let mut items: Vec<RowObject<VirtualScanRow>> = Vec::new();
                let mut index: u64 = 0;
                while index < count
                    invariant
                        self.wf(),
                        index <= count,
                        count as nat == n,
                        page_start + count <= visible_count,
                        self@ == (ScanResultState {
                            next_handle: handle_after(base, index as nat),
                            ..start
                        }),
                        objects_view(items@) == placeholder_objects(page_start, n, base).take(
                            index as int,
                        ),
                    decreases count - index,
                {
                    let handle = self.allocate_handle();
                    let object = RowObject {
                        handle,
                        row: VirtualScanRow::Loading { index: page_start + index },
                    };
                    let ghost before = items@;
                    items.push(object);
                    index += 1;
                    proof {
                        assert(objects_view(items@) =~= objects_view(before).push(object@));
                        assert(objects_view(items@) =~= placeholder_objects(page_start, n, base).take(
                            index as int,
                        ));
                    }
                }
                proof {
                    assert(objects_view(items@) =~= placeholder_objects(page_start, n, base));
                    assert(offset < items@.len());
                    assert(objects_view(items@)[offset as int] == items@[offset as int]@);
                }
                let object = items[offset].exact_copy();
                let ghost mid = self@;
                let page = PendingPage { generation, page_start, items };
                self.pending.push(page);
                let event = ModelEvent::ScheduleLoad { generation, page_start };
                proof {
                    Self::lemma_events_push(self.events@, event);
                }
                self.events.push(event);
                proof {
                    assert(self@.pending =~= mid.pending.push(page@));
                    let target = old(self)@.item_lookup(position).1;
                    assert(self@ =~= target);
                    let o = old(self)@;
                    assert forall|a: int| 0 <= a < self@.pending.len() implies pending_wf(
                        self@,
                        #[trigger] self@.pending[a],
                    ) by {
                        if a < o.pending.len() {
                            assert(pending_wf(o, o.pending[a]));
                        }
                    }
                    assert forall|a: int, b: int| 0 <= a < b < self@.pending.len() implies #[trigger] self@.pending[a].page_start
                        != #[trigger] self@.pending[b].page_start by {
                        if b == o.pending.len() {
                            assert(pending_wf(o, o.pending[a]));
                            assert(!(o.pending[a].generation == generation && o.pending[a].page_start
                                == page_start));
                        }
                    }
                }
                Some(object)
            },
        }
    }
}

} // verus!
