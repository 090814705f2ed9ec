//! The address list of the cheat table as a virtual list model: a bounded
//! cache of loaded pages, placeholders for pages being loaded, refreshes
//! that update row objects in place, and the events its owner carries out.
use crate::bridge::{AddressPage, AddressRecord, copy_records};
use crate::page_cache::{
    CachedPage, ExactCopy, PageCache, RowObject, copy_objects, handle_after, next_handle_after,
    objects_view, touched,
};
use crate::paging::{
    lemma_page_start_bounds, min_u64, page_start_of, saturating_sum, shown_rows, visible_for,
};
use vstd::prelude::*;

verus! {

broadcast use vstd::std_specs::hash::group_hash_axioms;

/// The largest page that the address list asks the engine for.
pub const MAX_ADDRESS_PAGE_SIZE: u32 = 256;

/// The number of pages that the address list keeps by default.
pub const DEFAULT_ADDRESS_CACHE_PAGES: usize = 16;

pub const STALE_WHILE_LOADING: &'static str = "The address list changed while a visible page was loading.";

pub const STALE_PAGING_CONTRACT: &'static str = "The address-list generation changed its paging contract.";

pub const UNEXPECTED_PAGE_LENGTH: &'static str = "The engine returned an unexpected address-list page length.";

pub const STALE_HIERARCHY: &'static str = "The visible address hierarchy changed without a new generation.";

/// A problem that the model reports to its owner.
#[derive(Clone, Debug, Eq, PartialEq)]
pub enum ModelIssue {
    /// One page could not be shown; the rest of the model stays usable.
    Page(String),
    /// The engine's data changed under the model, which has been cleared.
    Stale(String),
}

/// A model issue with its message as text.
pub enum IssueView {
    Page(Seq<char>),
    Stale(Seq<char>),
}

impl View for ModelIssue {
    type V = IssueView;

    open spec fn view(&self) -> IssueView {
        match self {
            ModelIssue::Page(message) => IssueView::Page(message@),
            ModelIssue::Stale(message) => IssueView::Stale(message@),
        }
    }
}

/// What the address list shows at one position.
#[derive(Clone, Debug, Eq, PartialEq)]
pub enum VirtualAddressRow {
    Loading { index: u64 },
    Loaded { index: u64, record: AddressRecord },
    Error { index: u64, message: String },
}

/// A row of the address list with its message as text.
pub enum AddressRowView {
    Loading { index: u64 },
    Loaded { index: u64, record: AddressRecord },
    Error { index: u64, message: Seq<char> },
}

impl View for VirtualAddressRow {
    type V = AddressRowView;

    open spec fn view(&self) -> AddressRowView {
        match self {
            VirtualAddressRow::Loading { index } => AddressRowView::Loading { index: *index },
            VirtualAddressRow::Loaded { index, record } => AddressRowView::Loaded {
                index: *index,
                record: *record,
            },
            VirtualAddressRow::Error { index, message } => AddressRowView::Error {
                index: *index,
                message: message@,
            },
        }
    }
}

impl ExactCopy for VirtualAddressRow {
    fn exact_copy(&self) -> (copy: Self) {
        match self {
            VirtualAddressRow::Loading { index } => VirtualAddressRow::Loading { index: *index },
            VirtualAddressRow::Loaded { index, record } => VirtualAddressRow::Loaded {
                index: *index,
                record: record.exact_copy(),
            },
            VirtualAddressRow::Error { index, message } => VirtualAddressRow::Error {
                index: *index,
                message: message.clone(),
            },
        }
    }
}

/// What the owner of the model has to carry out after a call: notify the
/// list view, pass an issue to its handler, schedule a page load, or show
/// the new content of a row object that was updated in place.
#[derive(Clone, Debug, Eq, PartialEq)]
pub enum ModelEvent {
    ItemsChanged { position: u32, removed: u32, added: u32 },
    Issue(ModelIssue),
    ScheduleLoad { generation: u64, page_start: u64 },
    RowUpdated(RowObject<VirtualAddressRow>),
}

/// A model event with its texts as character sequences.
pub enum EventView {
    ItemsChanged { position: u32, removed: u32, added: u32 },
    Issue(IssueView),
    ScheduleLoad { generation: u64, page_start: u64 },
    RowUpdated(RowObject<AddressRowView>),
}

impl View for ModelEvent {
    type V = EventView;

    open spec fn view(&self) -> EventView {
        match self {
            ModelEvent::ItemsChanged { position, removed, added } => EventView::ItemsChanged {
                position: *position,
                removed: *removed,
                added: *added,
            },
            ModelEvent::Issue(issue) => EventView::Issue(issue@),
            ModelEvent::ScheduleLoad { generation, page_start } => EventView::ScheduleLoad {
                generation: *generation,
                page_start: *page_start,
            },
            ModelEvent::RowUpdated(object) => EventView::RowUpdated(object@),
        }
    }
}

/// The placeholder objects of a page whose load has been scheduled.
pub struct PendingPage {
    pub generation: u64,
    pub page_start: u64,
    pub items: Vec<RowObject<VirtualAddressRow>>,
}

/// A pending page with its objects as views.
pub struct PendingView {
    pub generation: u64,
    pub page_start: u64,
    pub items: Seq<RowObject<AddressRowView>>,
}

impl View for PendingPage {
    type V = PendingView;

    open spec fn view(&self) -> PendingView {
        PendingView {
            generation: self.generation,
            page_start: self.page_start,
            items: objects_view(self.items@),
        }
    }
}

/// The whole state of an address list model.
#[verifier::ext_equal]
pub struct AddressListState {
    pub generation: u64,
    pub total_count: u64,
    pub raw_total_count: u64,
    pub visible_count: u32,
    pub page_size: u32,
    pub cache_pages: usize,
    pub configured: bool,
    pub next_handle: u64,
    pub pages: Map<u64, Seq<RowObject<AddressRowView>>>,
    pub recency: Seq<u64>,
    pub pending: Seq<PendingView>,
    pub events: Seq<EventView>,
}

/// The placeholders of `count` positions from `page_start`.
pub open spec fn placeholder_objects(page_start: u64, count: nat, first_handle: u64) -> Seq<
    RowObject<AddressRowView>,
> {
    Seq::new(
        count,
        |i: int|
            RowObject {
                handle: handle_after(first_handle, i as nat),
                row: AddressRowView::Loading { index: (page_start + i) as u64 },
            },
    )
}

/// The row objects of loaded `rows` from `page_start`.
pub open spec fn loaded_objects(page_start: u64, rows: Seq<AddressRecord>, first_handle: u64) -> Seq<
    RowObject<AddressRowView>,
> {
    Seq::new(
        rows.len(),
        |i: int|
            RowObject {
                handle: handle_after(first_handle, i as nat),
                row: AddressRowView::Loaded {
                    index: vstd::wrapping::u64_specs::wrapping_add(page_start, i as u64),
                    record: rows[i],
                },
            },
    )
}

/// The error rows of `count` positions from `page_start`.
pub open spec fn error_objects(
    page_start: u64,
    count: nat,
    message: Seq<char>,
    first_handle: u64,
) -> Seq<RowObject<AddressRowView>> {
    Seq::new(
        count,
        |i: int|
            RowObject {
                handle: handle_after(first_handle, i as nat),
                row: AddressRowView::Error { index: (page_start + i) as u64, message },
            },
    )
}

impl AddressListState {
    /// The notification for the shown part of the page at `page_start`.
    pub open spec fn notify(self, page_start: u64) -> Seq<EventView> {
        if page_start < self.visible_count as u64 {
            let n = shown_rows(self.page_size, self.visible_count, page_start);
            seq![EventView::ItemsChanged { position: page_start as u32, removed: n as u32, added: n as u32 }]
        } else {
            Seq::empty()
        }
    }

    /// The page that storing a page at `page_start` evicts.
    pub open spec fn victim(self, page_start: u64) -> Option<u64> {
        if !self.pages.contains_key(page_start) && self.pages.len() == self.cache_pages as nat {
            Some(self.recency[0])
        } else {
            None
        }
    }

    /// The state after `objects` were stored as the page at `page_start`.
    pub open spec fn with_page(self, page_start: u64, objects: Seq<RowObject<AddressRowView>>) -> Self {
        match self.victim(page_start) {
            Some(victim) => AddressListState {
                pages: self.pages.insert(page_start, objects).remove(victim),
                recency: touched(self.recency, page_start).drop_first(),
                events: self.events + self.notify(page_start) + self.notify(victim),
                ..self
            },
            None => AddressListState {
                pages: self.pages.insert(page_start, objects),
                recency: touched(self.recency, page_start),
                events: self.events + self.notify(page_start),
                ..self
            },
        }
    }

    /// The state after `issue` was passed to the issue handler, if any.
    pub open spec fn reported(self, issue: IssueView) -> Self {
        if self.configured {
            AddressListState { events: self.events.push(EventView::Issue(issue)), ..self }
        } else {
            self
        }
    }

    /// The state after the model was emptied and detached from its loader.
    pub open spec fn cleared(self) -> Self {
        AddressListState {
            generation: 0,
            total_count: 0,
            raw_total_count: 0,
            visible_count: 0,
            configured: false,
            pages: Map::empty(),
            recency: Seq::empty(),
            pending: Seq::empty(),
            events: if self.visible_count > 0 {
                self.events.push(
                    EventView::ItemsChanged { position: 0, removed: self.visible_count, added: 0 },
                )
            } else {
                self.events
            },
            ..self
        }
    }

    /// The state after the model was cleared because of `issue`, which goes
    /// to the issue handler that was attached before.
    pub open spec fn invalidated(self, issue: IssueView) -> Self {
        if self.configured {
            AddressListState {
                events: self.cleared().events.push(EventView::Issue(issue)),
                ..self.cleared()
            }
        } else {
            self.cleared()
        }
    }

    /// The state after the loaded `rows` were stored as the page at
    /// `page_start`, each in a new row object.
    pub open spec fn with_loaded_rows(self, page_start: u64, rows: Seq<AddressRecord>) -> Self {
        AddressListState {
            next_handle: handle_after(self.next_handle, rows.len()),
            ..self
        }.with_page(page_start, loaded_objects(page_start, rows, self.next_handle))
    }

    /// The state after the shown positions of the page at `page_start`
    /// were filled with error rows that carry `message`, and the message
    /// was reported.
    pub open spec fn with_error_page(self, page_start: u64, message: Seq<char>) -> Self {
        let n = shown_rows(self.page_size, self.visible_count, page_start);
        AddressListState {
            next_handle: handle_after(self.next_handle, n),
            ..self
        }.with_page(page_start, error_objects(page_start, n, message, self.next_handle)).reported(
            IssueView::Page(message),
        )
    }

    /// What the model makes of a page that the engine returned for a load
    /// of generation `expected_generation` at `page_start`: its rows, or
    /// the issue that rejects it.
    pub open spec fn validated(
        self,
        expected_generation: u64,
        page_start: u64,
        page_size: u32,
        page: AddressPage,
    ) -> Result<Seq<AddressRecord>, IssueView> {
        if page.generation != expected_generation {
            Err(IssueView::Stale(STALE_WHILE_LOADING@))
        } else if page.error_message@.len() > 0 {
            Err(IssueView::Page(page.error_message@))
        } else if page.start != page_start || page.total_count != self.total_count
            || page.raw_total_count != self.raw_total_count {
            Err(IssueView::Stale(STALE_PAGING_CONTRACT@))
        } else if saturating_sum(page_start, page.rows@.len()) != min_u64(
            saturating_sum(page_start, page_size as nat),
            page.total_count,
        ) {
            Err(IssueView::Page(UNEXPECTED_PAGE_LENGTH@))
        } else {
            Ok(page.rows@)
        }
    }

    /// The state after the loader answered a load of generation
    /// `expected_generation` at `page_start` with `result`.
    pub open spec fn after_page_result(
        self,
        expected_generation: u64,
        page_start: u64,
        page_size: u32,
        result: Result<AddressPage, String>,
    ) -> Self {
        match result {
            Ok(page) => match self.validated(expected_generation, page_start, page_size, page) {
                Ok(rows) => self.with_loaded_rows(page_start, rows),
                Err(IssueView::Page(message)) => self.with_error_page(page_start, message),
                Err(issue) => self.invalidated(issue),
            },
            Err(message) => self.with_error_page(page_start, message@),
        }
    }

    /// The state without the pending page of `generation` at `page_start`.
    pub open spec fn without_pending(self, generation: u64, page_start: u64) -> Self {
        match pending_position(self.pending, generation, page_start) {
            Some(i) => AddressListState { pending: self.pending.remove(i), ..self },
            None => self,
        }
    }

    /// What the list view gets at `position`, and the state after it asked:
    /// the cached object, which marks its page most recently used; else the
    /// placeholder of the page's pending load; else a new placeholder page
    /// whose load is scheduled.
    pub open spec fn item_lookup(self, position: u32) -> (Option<RowObject<AddressRowView>>, Self) {
        if position >= self.visible_count {
            (None, self)
        } else {
            let page_start = page_start_of(position, self.page_size);
            let offset = position - page_start;
            if self.pages.contains_key(page_start) && offset < self.pages[page_start].len() {
                (
                    Some(self.pages[page_start][offset]),
                    AddressListState { recency: touched(self.recency, page_start), ..self },
                )
            } else {
                match pending_position(self.pending, self.generation, page_start) {
                    Some(i) => (Some(self.pending[i].items[offset]), self),
                    None => {
                        let n = shown_rows(self.page_size, self.visible_count, page_start);
                        let items = placeholder_objects(page_start, n, self.next_handle);
                        (
                            Some(items[offset]),
                            AddressListState {
                                pending: self.pending.push(
                                    PendingView { generation: self.generation, page_start, items },
                                ),
                                next_handle: handle_after(self.next_handle, n),
                                events: self.events.push(
                                    EventView::ScheduleLoad { generation: self.generation, page_start },
                                ),
                                ..self
                            },
                        )
                    },
                }
            }
        }
    }

    /// Whether the object at `position` shows a loaded record, and the state
    /// after the check, which marks a cached page most recently used.
    pub open spec fn loaded_at(self, position: u32) -> (bool, Self) {
        if position >= self.visible_count {
            (false, self)
        } else {
            let page_start = page_start_of(position, self.page_size);
            let offset = position - page_start;
            if self.pages.contains_key(page_start) && offset < self.pages[page_start].len() {
                (
                    self.pages[page_start][offset].row is Loaded,
                    AddressListState { recency: touched(self.recency, page_start), ..self },
                )
            } else {
                (false, self)
            }
        }
    }

    /// The state after the cached page at `page_start` was compared with
    /// the refreshed `rows`, and the outcome of the comparison. The records
    /// are written into the objects that still show the same entries, up to
    /// the first object that no longer fits.
    pub open spec fn updated_in_place(self, page_start: u64, rows: Seq<AddressRecord>) -> (RefreshUpdate, Self) {
        if !self.pages.contains_key(page_start) {
            (RefreshUpdate::Replace, self)
        } else {
            let items = self.pages[page_start];
            let touched_state = AddressListState { recency: touched(self.recency, page_start), ..self };
            if items.len() != rows.len() {
                (RefreshUpdate::Stale, touched_state)
            } else {
                (
                    refresh_update(items, rows),
                    AddressListState {
                        pages: self.pages.insert(page_start, written_objects(items, rows)),
                        events: self.events + written_events(items, rows, items.len()),
                        ..touched_state
                    },
                )
            }
        }
    }

    /// The records that a refresh of the page at `page_start` of
    /// `generation` yields from the loader's `result`, and the state after
    /// it; no records when the model had to be cleared.
    pub open spec fn refreshed(
        self,
        generation: u64,
        page_start: u64,
        page_size: u32,
        result: Result<AddressPage, String>,
    ) -> (Option<Seq<AddressRecord>>, Self) {
        match result {
            Err(message) => (Some(Seq::empty()), self.reported(IssueView::Page(message@))),
            Ok(page) => match self.validated(generation, page_start, page_size, page) {
                Err(IssueView::Page(message)) => (Some(Seq::empty()), self.reported(IssueView::Page(message))),
                Err(issue) => (None, self.invalidated(issue)),
                Ok(rows) => {
                    let (update, updated) = self.updated_in_place(page_start, rows);
                    match update {
                        RefreshUpdate::Updated => (Some(rows), updated),
                        RefreshUpdate::Replace => (Some(rows), updated.with_loaded_rows(page_start, rows)),
                        RefreshUpdate::Stale => (None, updated.invalidated(IssueView::Stale(STALE_HIERARCHY@))),
                    }
                },
            },
        }
    }

    /// The model shows nothing and has no loader.
    pub open spec fn is_cleared(self) -> bool {
        &&& self.generation == 0
        &&& self.total_count == 0
        &&& self.raw_total_count == 0
        &&& self.visible_count == 0
        &&& !self.configured
        &&& self.pages.dom() == Set::<u64>::empty()
        &&& self.pending.len() == 0
    }

    /// The state after `configure` with the given counts.
    pub open spec fn configured_with(self, generation: u64, total_count: u64, raw_total_count: u64) -> Self {
        let visible = visible_for(total_count);
        AddressListState {
            generation,
            total_count,
            raw_total_count,
            visible_count: visible,
            configured: true,
            pages: Map::empty(),
            recency: Seq::empty(),
            pending: Seq::empty(),
            events: if self.visible_count > 0 || visible > 0 {
                self.events.push(
                    EventView::ItemsChanged { position: 0, removed: self.visible_count, added: visible },
                )
            } else {
                self.events
            },
            ..self
        }
    }
}

/// An address list that shows `total_count` records through a bounded cache
/// of pages, loads missing pages on demand, and tells its owner what to do
/// through a queue of events.
pub struct AddressListModel {
    generation: u64,
    total_count: u64,
    raw_total_count: u64,
    visible_count: u32,
    page_size: u32,
    cache_pages: usize,
    cache: PageCache<VirtualAddressRow>,
    pending: Vec<PendingPage>,
    configured: bool,
    next_handle: u64,
    events: Vec<ModelEvent>,
}

impl View for AddressListModel {
    type V = AddressListState;

    closed spec fn view(&self) -> AddressListState {
        AddressListState {
            generation: self.generation,
            total_count: self.total_count,
            raw_total_count: self.raw_total_count,
            visible_count: self.visible_count,
            page_size: self.page_size,
            cache_pages: self.cache_pages,
            configured: self.configured,
            next_handle: self.next_handle,
            pages: self.cache.pages().map_values(
                |objects: Seq<RowObject<VirtualAddressRow>>| objects_view(objects),
            ),
            recency: self.cache.recency(),
            pending: self.pending@.map_values(|p: PendingPage| p@),
            events: self.events@.map_values(|e: ModelEvent| e@),
        }
    }
}

/// The position in `pending` of the page of `generation` at `page_start`.
pub open spec fn pending_position(pending: Seq<PendingView>, generation: u64, page_start: u64) -> Option<
    int,
> {
    if exists|i: int|
        0 <= i < pending.len() && pending[i].generation == generation && pending[i].page_start
            == page_start {
        Some(
            choose|i: int|
                0 <= i < pending.len() && pending[i].generation == generation
                    && pending[i].page_start == page_start,
        )
    } else {
        None
    }
}

/// How a refreshed page fits the objects cached for it.
pub enum RefreshUpdate {
    /// Every object shows the same record as before: update them in place.
    Updated,
    /// Some objects show errors: store the page anew.
    Replace,
    /// The page no longer fits: the hierarchy changed under the model.
    Stale,
}

/// The position of a row.
pub open spec fn row_index(row: AddressRowView) -> u64 {
    match row {
        AddressRowView::Loading { index } => index,
        AddressRowView::Loaded { index, .. } => index,
        AddressRowView::Error { index, .. } => index,
    }
}

/// Whether `row` shows the record that `record` refreshes.
pub open spec fn keeps_record(row: AddressRowView, record: AddressRecord) -> bool {
    match row {
        AddressRowView::Loaded { record: current, .. } => current.id == record.id,
        _ => false,
    }
}

/// Whether the cached object `item` still fits the refreshed `record`: it
/// shows the same entry, or an error.
pub open spec fn fits(item: RowObject<AddressRowView>, record: AddressRecord) -> bool {
    keeps_record(item.row, record) || item.row is Error
}

/// Whether the first `n` cached `items` fit their refreshed `rows`.
pub open spec fn leading_fit(items: Seq<RowObject<AddressRowView>>, rows: Seq<AddressRecord>, n: int) -> bool {
    forall|j: int| 0 <= j < n ==> fits(#[trigger] items[j], rows[j])
}

/// How the refreshed `rows` fit the cached `items`.
pub open spec fn refresh_update(items: Seq<RowObject<AddressRowView>>, rows: Seq<AddressRecord>) -> RefreshUpdate {
    if items.len() != rows.len() || !leading_fit(items, rows, items.len() as int) {
        RefreshUpdate::Stale
    } else if exists|i: int| 0 <= i < items.len() && items[i].row is Error {
        RefreshUpdate::Replace
    } else {
        RefreshUpdate::Updated
    }
}

/// Whether a refresh writes its record into the cached object at `i`: the
/// object shows the same entry, and every object before it fits. The
/// comparison stops at the first object that does not fit.
pub open spec fn written_at(items: Seq<RowObject<AddressRowView>>, rows: Seq<AddressRecord>, i: int) -> bool {
    leading_fit(items, rows, i) && keeps_record(items[i].row, rows[i])
}

/// The object `item` showing the refreshed `record`: same handle and
/// position.
pub open spec fn rewritten(item: RowObject<AddressRowView>, record: AddressRecord) -> RowObject<
    AddressRowView,
> {
    RowObject { handle: item.handle, row: AddressRowView::Loaded { index: row_index(item.row), record } }
}

/// The cached `items` after a refresh with `rows` wrote the records into
/// the objects it updates in place.
pub open spec fn written_objects(items: Seq<RowObject<AddressRowView>>, rows: Seq<AddressRecord>) -> Seq<
    RowObject<AddressRowView>,
> {
    Seq::new(
        items.len(),
        |i: int|
            if written_at(items, rows, i) {
                rewritten(items[i], rows[i])
            } else {
                items[i]
            },
    )
}

/// The events that show the objects among the first `n` that a refresh
/// with `rows` updated in place, in position order.
pub open spec fn written_events(items: Seq<RowObject<AddressRowView>>, rows: Seq<AddressRecord>, n: nat) -> Seq<
    EventView,
>
    decreases n,
{
    if n == 0 {
        Seq::empty()
    } else {
        let before = written_events(items, rows, (n - 1) as nat);
        if written_at(items, rows, n - 1) {
            before.push(EventView::RowUpdated(rewritten(items[n - 1], rows[n - 1])))
        } else {
            before
        }
    }
}

/// Every element of `s` is less than the next.
pub open spec fn strictly_increasing(s: Seq<u64>) -> bool {
    forall|i: int, j: int| 0 <= i < j < s.len() ==> s[i] < s[j]
}

/// What a refresh of the pages at `requested` starts may change: the
/// queue of events only grows, and either the model keeps its generation,
/// counts, pending pages and set of cached pages, with only requested
/// pages changed, or the model was cleared.
pub open spec fn refresh_frame(old: AddressListState, new: AddressListState, requested: Seq<u64>) -> bool {
    &&& new.page_size == old.page_size
    &&& new.cache_pages == old.cache_pages
    &&& old.events.is_prefix_of(new.events)
    &&& {
        ||| {
            &&& new.generation == old.generation
            &&& new.total_count == old.total_count
            &&& new.raw_total_count == old.raw_total_count
            &&& new.visible_count == old.visible_count
            &&& new.configured == old.configured
            &&& new.pending == old.pending
            &&& new.pages.dom() == old.pages.dom()
            &&& forall|k: u64|
                #![trigger new.pages[k]]
                new.pages.contains_key(k) && !requested.contains(k) ==> new.pages[k] == old.pages[k]
        }
        ||| new.is_cleared()
    }
}

impl AddressListState {
    /// A refresh of the pages at `starts`, in that order, for `generation`
    /// with pages of `page_size` positions, where the loader answers the
    /// loads it is asked for with `answers`, in turn: the records it yields,
    /// the state after it, and the pages it asked the loader for. A page
    /// that is not cached is skipped; an answer that clears the model ends
    /// the refresh; a load that finds no answer left ends it too, as asked
    /// for but without effect.
    pub open spec fn refresh_run(
        self,
        generation: u64,
        page_size: u32,
        starts: Seq<u64>,
        answers: Seq<Result<AddressPage, String>>,
    ) -> (Seq<AddressRecord>, Self, Seq<u64>)
        decreases starts.len(),
    {
        if starts.len() == 0 {
            (Seq::empty(), self, Seq::empty())
        } else if !self.pages.contains_key(starts[0]) {
            self.refresh_run(generation, page_size, starts.drop_first(), answers)
        } else if answers.len() == 0 {
            (Seq::empty(), self, seq![starts[0]])
        } else {
            let (records, next) = self.refreshed(generation, starts[0], page_size, answers[0]);
            match records {
                Some(records) => {
                    let (more, last, asked) = next.refresh_run(
                        generation,
                        page_size,
                        starts.drop_first(),
                        answers.drop_first(),
                    );
                    (records + more, last, seq![starts[0]] + asked)
                },
                None => (Seq::empty(), next, seq![starts[0]]),
            }
        }
    }
}

/// A pending page is a page of placeholders for the current generation,
/// one for each shown position of that page.
pub open spec fn pending_wf(state: AddressListState, p: PendingView) -> bool {
    &&& p.generation == state.generation
    &&& p.page_start < state.visible_count as u64
    &&& p.items.len() == shown_rows(state.page_size, state.visible_count, p.page_start)
    &&& forall|j: int|
        0 <= j < p.items.len() ==> (#[trigger] p.items[j]).row == (AddressRowView::Loading {
            index: (p.page_start + j) as u64,
        })
}

/// Every object of `objects` stands at the position that its row names,
/// counted from `page_start`.
pub open spec fn objects_at(page_start: u64, objects: Seq<RowObject<AddressRowView>>) -> bool {
    forall|j: int|
        0 <= j < objects.len() && page_start + j <= u64::MAX ==> row_index(
            (#[trigger] objects[j]).row,
        ) == page_start + j
}

/// Every cached object stands at the position that its row names: the
/// object at offset `j` of the page at `k` has index `k + j`.
pub open spec fn pages_indexed(pages: Map<u64, Seq<RowObject<AddressRowView>>>) -> bool {
    forall|k: u64| pages.contains_key(k) ==> objects_at(k, #[trigger] pages[k])
}

impl AddressListState {
    /// The invariant of the model's state.
    pub open spec fn wf(self) -> bool {
        &&& 1 <= self.page_size <= MAX_ADDRESS_PAGE_SIZE
        &&& self.cache_pages >= 1
        &&& self.pages.len() <= self.cache_pages
        &&& self.recency.no_duplicates()
        &&& forall|k: u64| #[trigger] self.pages.contains_key(k) <==> self.recency.contains(k)
        &&& pages_indexed(self.pages)
        &&& self.visible_count == visible_for(self.total_count)
        &&& forall|i: int| 0 <= i < self.pending.len() ==> pending_wf(self, #[trigger] self.pending[i])
        &&& forall|i: int, j: int|
            0 <= i < j < self.pending.len() ==> #[trigger] self.pending[i].page_start
                != #[trigger] self.pending[j].page_start
    }
}

impl AddressListState {
    /// The invariant only depends on the counts, the page size, the cache
    /// size and the pending pages, besides the number of cached pages.
    pub proof fn lemma_wf_frame(self, other: Self)
        requires
            self.wf(),
            other.generation == self.generation,
            other.total_count == self.total_count,
            other.visible_count == self.visible_count,
            other.page_size == self.page_size,
            other.cache_pages == self.cache_pages,
            other.pending == self.pending,
            other.pages.len() <= other.cache_pages,
            other.recency.no_duplicates(),
            forall|k: u64| #[trigger] other.pages.contains_key(k) <==> other.recency.contains(k),
            pages_indexed(other.pages),
        ensures
            other.wf(),
    {
        assert forall|i: int| 0 <= i < other.pending.len() implies pending_wf(other, #[trigger] other.pending[i]) by {
            assert(pending_wf(self, self.pending[i]));
        }
    }
}

impl AddressListModel {
    /// The invariant: the state invariant, and the cache agrees with the
    /// recorded capacity.
    pub closed spec fn wf(&self) -> bool {
        &&& self@.wf()
        &&& self.cache.wf()
        &&& self.cache.capacity() == self.cache_pages as nat
    }

    /// A model's state meets the state invariant: among other things, the
    /// positions shown are the total capped at `u32::MAX`, every pending
    /// page holds the placeholders of its positions, and every cached
    /// object stands at the position its row names.
    pub proof fn lemma_state_wf(&self)
        requires
            self.wf(),
        ensures
            self@.wf(),
    {
    }

    proof fn lemma_pages_len(&self)
        requires
            self.cache.wf(),
        ensures
            self@.pages.len() == self.cache.pages().len(),
            self@.pages.dom() == self.cache.pages().dom(),
            self.cache.pages().len() <= self.cache.capacity(),
            self@.recency.no_duplicates(),
            forall|k: u64| #[trigger] self@.pages.contains_key(k) <==> self@.recency.contains(k),
    {
        assert(self@.pages.dom() =~= self.cache.pages().dom());
        self.cache.lemma_bounded();
    }

    /// A model with pages of `page_size` positions, clamped to 1 through
    /// `MAX_ADDRESS_PAGE_SIZE`, and a cache of `cache_pages` pages, at
    /// least one.
    pub fn new(page_size: u32, cache_pages: usize) -> (model: Self)
        ensures
            model.wf(),
            model@ == (AddressListState {
                generation: 0,
                total_count: 0,
                raw_total_count: 0,
                visible_count: 0,
                page_size: if page_size < 1 {
                    1
                } else if page_size > MAX_ADDRESS_PAGE_SIZE {
                    MAX_ADDRESS_PAGE_SIZE
                } else {
                    page_size
                },
                cache_pages: if cache_pages < 1 { 1 } else { cache_pages },
                configured: false,
                next_handle: 0,
                pages: Map::empty(),
                recency: Seq::empty(),
                pending: Seq::empty(),
                events: Seq::empty(),
            }),
    {
        let clamped = if page_size < 1 {
            1
        } else if page_size > MAX_ADDRESS_PAGE_SIZE {
            MAX_ADDRESS_PAGE_SIZE
        } else {
            page_size
        };
        let pages = if cache_pages < 1 { 1 } else { cache_pages };
        let model = AddressListModel {
            generation: 0,
            total_count: 0,
            raw_total_count: 0,
            visible_count: 0,
            page_size: clamped,
            cache_pages: pages,
            cache: PageCache::new(cache_pages),
            pending: Vec::new(),
            configured: false,
            next_handle: 0,
            events: Vec::new(),
        };
        proof {
            model.lemma_pages_len();
            assert(model@.pages =~= Map::empty());
            assert(model@.pending =~= Seq::empty());
            assert(model@.events =~= Seq::empty());
        }
        model
    }

    /// The generation of the records the model shows; 0 when it shows none.
    pub fn generation(&self) -> (generation: u64)
        ensures
            generation == self@.generation,
    {
        self.generation
    }

    /// The number of records, which may exceed the positions shown.
    pub fn total_count(&self) -> (count: u64)
        ensures
            count == self@.total_count,
    {
        self.total_count
    }

    /// The number of records before the hierarchy hid collapsed ones.
    pub fn raw_total_count(&self) -> (count: u64)
        ensures
            count == self@.raw_total_count,
    {
        self.raw_total_count
    }

    /// The number of positions the list shows.
    pub fn displayed_count(&self) -> (count: u32)
        ensures
            count == self@.visible_count,
    {
        self.visible_count
    }

    /// The number of positions the list shows, as the list view asks for it.
    pub fn n_items(&self) -> (count: u32)
        ensures
            count == self@.visible_count,
    {
        self.visible_count
    }

    /// The number of rows the cache can hold.
    pub fn cached_row_capacity(&self) -> (capacity: u64)
        requires
            self@.page_size * self@.cache_pages <= u64::MAX,
        ensures
            capacity == self@.page_size * self@.cache_pages,
    {
        self.page_size as u64 * self.cache_pages as u64
    }

    /// The first position of the page that holds `position`.
    pub fn page_start(&self, position: u32) -> (start: u64)
        requires
            self.wf(),
        ensures
            start == page_start_of(position, self@.page_size),
            start <= position,
    {
        let page_size = self.page_size;
        proof {
            lemma_page_start_bounds(position, page_size);
        }
        ((position / page_size) * page_size) as u64
    }
}

impl AddressListModel {
    proof fn lemma_events_push(old_events: Seq<ModelEvent>, event: ModelEvent)
        ensures
            old_events.push(event).map_values(|e: ModelEvent| e@) == old_events.map_values(
                |e: ModelEvent| e@,
            ).push(event@),
    {
        assert(old_events.push(event).map_values(|e: ModelEvent| e@) =~= old_events.map_values(
            |e: ModelEvent| e@,
        ).push(event@));
    }

    /// Shows `total_count` records of `generation`, of which at most
    /// `u32::MAX` get positions, and attaches the model to a loader and an
    /// issue handler. Cached and pending pages are dropped.
    pub fn configure(&mut self, generation: u64, total_count: u64, raw_total_count: u64)
        requires
            old(self).wf(),
        ensures
            final(self).wf(),
            final(self)@ == old(self)@.configured_with(generation, total_count, raw_total_count),
    {
        let old_count = self.visible_count;
        let visible_count = if total_count > u32::MAX as u64 {
            u32::MAX
        } else {
            total_count as u32
        };
        self.generation = generation;
        self.total_count = total_count;
        self.raw_total_count = raw_total_count;
        self.visible_count = visible_count;
        self.pending = Vec::new();
        self.cache.clear();
        self.configured = true;
        if old_count > 0 || visible_count > 0 {
            proof {
                Self::lemma_events_push(
                    self.events@,
                    ModelEvent::ItemsChanged { position: 0, removed: old_count, added: visible_count },
                );
            }
            self.events.push(
                ModelEvent::ItemsChanged { position: 0, removed: old_count, added: visible_count },
            );
        }
        proof {
            self.lemma_pages_len();
            assert(self@.pages =~= Map::empty());
            assert(self@.pending =~= Seq::empty());
            assert(self@ =~= old(self)@.configured_with(generation, total_count, raw_total_count));
        }
    }

    /// Empties the model and detaches it from its loader and issue handler.
    pub fn clear(&mut self)
        requires
            old(self).wf(),
        ensures
            final(self).wf(),
            final(self)@ == old(self)@.cleared(),
    {
        let old_count = self.visible_count;
        self.visible_count = 0;
        self.generation = 0;
        self.total_count = 0;
        self.raw_total_count = 0;
        self.pending = Vec::new();
        self.cache.clear();
        self.configured = false;
        if old_count > 0 {
            proof {
                Self::lemma_events_push(
                    self.events@,
                    ModelEvent::ItemsChanged { position: 0, removed: old_count, added: 0 },
                );
            }
            self.events.push(ModelEvent::ItemsChanged { position: 0, removed: old_count, added: 0 });
        }
        proof {
            self.lemma_pages_len();
            assert(self@.pages =~= Map::empty());
            assert(self@.pending =~= Seq::empty());
            assert(self@ =~= old(self)@.cleared());
        }
    }

    /// Passes `issue` to the issue handler, if one is attached.
    fn report_issue(&mut self, issue: ModelIssue)
        requires
            old(self).wf(),
        ensures
            final(self).wf(),
            final(self)@ == old(self)@.reported(issue@),
    {
        if self.configured {
            proof {
                Self::lemma_events_push(self.events@, ModelEvent::Issue(issue));
            }
            self.events.push(ModelEvent::Issue(issue));
        }
        proof {
            assert(self@ =~= old(self)@.reported(issue@));
        }
    }

    /// Clears the model, then passes `issue` to the issue handler that was
    /// attached before.
    fn invalidate(&mut self, issue: ModelIssue)
        requires
            old(self).wf(),
        ensures
            final(self).wf(),
            final(self)@ == old(self)@.invalidated(issue@),
    {
        let had_handler = self.configured;
        self.clear();
        if had_handler {
            proof {
                Self::lemma_events_push(self.events@, ModelEvent::Issue(issue));
            }
            self.events.push(ModelEvent::Issue(issue));
        }
        proof {
            assert(self@ =~= old(self)@.invalidated(issue@));
        }
    }

    /// Hands the queued events to the owner, oldest first, and empties the
    /// queue.
    pub fn take_events(&mut self) -> (events: Vec<ModelEvent>)
        requires
            old(self).wf(),
        ensures
            final(self).wf(),
            events@.map_values(|e: ModelEvent| e@) == old(self)@.events,
            final(self)@ == (AddressListState { events: Seq::empty(), ..old(self)@ }),
    {
        let mut events: Vec<ModelEvent> = Vec::new();
        std::mem::swap(&mut events, &mut self.events);
        proof {
            assert(self.events@.map_values(|e: ModelEvent| e@) =~= Seq::<EventView>::empty());
            assert(self@ =~= (AddressListState { events: Seq::empty(), ..old(self)@ }));
        }
        events
    }

    /// Whether a loader and an issue handler are attached.
    pub fn is_configured(&self) -> (configured: bool)
        ensures
            configured == self@.configured,
    {
        self.configured
    }
}

/// Whether the cached object `item` fits the refreshed `record`; see
/// `fits`.
fn fits_record(item: &RowObject<VirtualAddressRow>, record: &AddressRecord) -> (fit: bool)
    ensures
        fit == fits(item@, *record),
{
    match &item.row {
        VirtualAddressRow::Loaded { record: current, .. } => current.id == record.id,
        VirtualAddressRow::Error { .. } => true,
        VirtualAddressRow::Loading { .. } => false,
    }
}

/// Whether the cached object `item` shows the entry that `record`
/// refreshes; see `keeps_record`.
fn keeps_same_entry(item: &RowObject<VirtualAddressRow>, record: &AddressRecord) -> (keeps: bool)
    ensures
        keeps == keeps_record(item@.row, *record),
{
    match &item.row {
        VirtualAddressRow::Loaded { record: current, .. } => current.id == record.id,
        _ => false,
    }
}

impl AddressListModel {
    /// Hands out the next row object handle.
    fn allocate_handle(&mut self) -> (handle: u64)
        requires
            old(self).wf(),
        ensures
            final(self).wf(),
            handle == old(self)@.next_handle,
            final(self)@ == (AddressListState {
                next_handle: next_handle_after(old(self)@.next_handle),
                ..old(self)@
            }),
    {
        let handle = self.next_handle;
        self.next_handle = self.next_handle.wrapping_add(1);
        proof {
            assert(self@ =~= (AddressListState {
                next_handle: next_handle_after(old(self)@.next_handle),
                ..old(self)@
            }));
        }
        handle
    }

    /// Tells the list view that the shown part of the page at `page_start`
    /// changed.
    fn notify_page(&mut self, page_start: u64)
        requires
            old(self).wf(),
        ensures
            final(self).wf(),
            final(self)@ == (AddressListState {
                events: old(self)@.events + old(self)@.notify(page_start),
                ..old(self)@
            }),
    {
        let visible_count = self.visible_count as u64;
        if page_start >= visible_count {
            proof {
                assert(old(self)@.notify(page_start) =~= Seq::<EventView>::empty());
                assert(self@ =~= (AddressListState {
                    events: old(self)@.events + old(self)@.notify(page_start),
                    ..old(self)@
                }));
            }
            return ;
        }
        let page_size = self.page_size as u64;
        let count = if page_size < visible_count - page_start {
            page_size as u32
        } else {
            (visible_count - page_start) as u32
        };
        let event = ModelEvent::ItemsChanged {
            position: page_start as u32,
            removed: count,
            added: count,
        };
        proof {
            Self::lemma_events_push(self.events@, event);
        }
        self.events.push(event);
        proof {
            assert(old(self)@.events + old(self)@.notify(page_start) =~= old(self)@.events.push(event@));
            assert(self@ =~= (AddressListState {
                events: old(self)@.events + old(self)@.notify(page_start),
                ..old(self)@
            }));
        }
    }

    /// Stores `page` at `page_start`, then notifies the list view of it and
    /// of the page it evicted.
    fn insert_page(&mut self, page_start: u64, page: CachedPage<VirtualAddressRow>)
        requires
            old(self).wf(),
            objects_at(page_start, objects_view(page.0@)),
        ensures
            final(self).wf(),
            final(self)@ == old(self)@.with_page(page_start, objects_view(page.0@)),
    {
        let ghost stored = page.0@;
        proof {
            self.lemma_pages_len();
        }
        let evicted = self.cache.insert(page_start, page);
        let ghost after_insert = self@;
        proof {
            let o = old(self)@;
            assert(old(self).cache.insert_victim(page_start) == o.victim(page_start));
            match o.victim(page_start) {
                Some(victim) => {
                    assert(self@.pages =~= o.pages.insert(page_start, objects_view(stored)).remove(victim));
                },
                None => {
                    assert(self@.pages =~= o.pages.insert(page_start, objects_view(stored)));
                },
            }
            self.lemma_pages_len();
            old(self)@.lemma_wf_frame(self@);
        }
        self.notify_page(page_start);
        let mut i: usize = 0;
        while i < evicted.len()
            invariant
                self.wf(),
                evicted@.len() <= 1,
                i <= evicted@.len(),
                evicted@ == match old(self)@.victim(page_start) {
                    Some(victim) => seq![victim],
                    None => Seq::<u64>::empty(),
                },
                self@ == (AddressListState {
                    events: after_insert.events + old(self)@.notify(page_start) + (if i == 0 {
                        Seq::<EventView>::empty()
                    } else {
                        old(self)@.notify(evicted@[0])
                    }),
                    ..after_insert
                }),
                after_insert.visible_count == old(self)@.visible_count,
                after_insert.page_size == old(self)@.page_size,
            decreases evicted@.len() - i,
        {
            let evicted_start = evicted[i];
            self.notify_page(evicted_start);
            i += 1;
            proof {
                assert(after_insert.events + old(self)@.notify(page_start) + old(self)@.notify(
                    evicted@[0],
                ) =~= after_insert.events + old(self)@.notify(page_start) + Seq::<EventView>::empty()
                    + old(self)@.notify(evicted@[0]));
            }
        }
        proof {
            match old(self)@.victim(page_start) {
                Some(victim) => {},
                None => {
                    assert(after_insert.events + old(self)@.notify(page_start)
                        + Seq::<EventView>::empty() =~= after_insert.events + old(self)@.notify(page_start));
                },
            }
            assert(self@ =~= old(self)@.with_page(page_start, objects_view(stored)));
        }
    }
}

impl AddressListModel {
    /// Stores the loaded `rows` as the page at `page_start`, each in a new
    /// row object.
    fn insert_loaded_page(&mut self, page_start: u64, rows: Vec<AddressRecord>)
        requires
            old(self).wf(),
        ensures
            final(self).wf(),
            final(self)@ == old(self)@.with_loaded_rows(page_start, rows@),
    {
        let ghost base = self@.next_handle;
        let ghost start = self@;
        let mut items: Vec<RowObject<VirtualAddressRow>> = Vec::new();
        let mut offset: usize = 0;
        while offset < rows.len()
            invariant
                self.wf(),
                offset <= rows@.len(),
                self@ == (AddressListState { next_handle: handle_after(base, offset as nat), ..start }),
                objects_view(items@) == loaded_objects(page_start, rows@, base).take(offset as int),
            decreases rows@.len() - offset,
        {
            let handle = self.allocate_handle();
            let object = RowObject {
                handle,
                row: VirtualAddressRow::Loaded {
                    index: page_start.wrapping_add(offset as u64),
                    record: rows[offset].exact_copy(),
                },
            };
            let ghost before = items@;
            items.push(object);
            offset += 1;
            proof {
                assert(objects_view(items@) =~= objects_view(before).push(object@));
                assert(objects_view(items@) =~= loaded_objects(page_start, rows@, base).take(
                    offset as int,
                ));
            }
        }
        proof {
            assert(loaded_objects(page_start, rows@, base).take(rows@.len() as int)
                =~= loaded_objects(page_start, rows@, base));
        }
        self.insert_page(page_start, CachedPage(items));
    }

    /// Fills the shown positions of the page at `page_start` with error rows
    /// that carry `message`, and reports the message.
    fn cache_page_error(&mut self, page_start: u64, message: String)
        requires
            old(self).wf(),
        ensures
            final(self).wf(),
            final(self)@ == old(self)@.with_error_page(page_start, message@),
    {
        let ghost base = self@.next_handle;
        let ghost start = self@;
        let visible_count = self.visible_count as u64;
        let page_size = self.page_size as u64;
        let count: u64 = if page_start < visible_count {
            if page_size < visible_count - page_start {
                page_size
            } else {
                visible_count - page_start
            }
        } else {
            0
        };
        proof {
            assert(count as nat == shown_rows(start.page_size, start.visible_count, page_start));
        }
        let mut items: Vec<RowObject<VirtualAddressRow>> = Vec::new();
        let mut offset: u64 = 0;
        while offset < count
            invariant
                self.wf(),
                offset <= count,
                count as nat == shown_rows(start.page_size, start.visible_count, page_start),
                count > 0 ==> page_start + count <= visible_count,
                visible_count == start.visible_count,
                self@ == (AddressListState { next_handle: handle_after(base, offset as nat), ..start }),
                objects_view(items@) == error_objects(page_start, count as nat, message@, base).take(
                    offset as int,
                ),
            decreases count - offset,
        {
            let handle = self.allocate_handle();
            let object = RowObject {
                handle,
                row: VirtualAddressRow::Error { index: page_start + offset, message: message.clone() },
            };
            let ghost before = items@;
            items.push(object);
            offset += 1;
            proof {
                assert(objects_view(items@) =~= objects_view(before).push(object@));
                assert(objects_view(items@) =~= error_objects(
                    page_start,
                    count as nat,
                    message@,
                    base,
                ).take(offset as int));
            }
        }
        proof {
            assert(error_objects(page_start, count as nat, message@, base).take(count as int)
                =~= error_objects(page_start, count as nat, message@, base));
        }
        self.insert_page(page_start, CachedPage(items));
        self.report_issue(ModelIssue::Page(message));
    }
}

impl AddressListModel {
    /// Checks a page that the engine returned for a load of generation
    /// `expected_generation` at `page_start` against the model.
    fn validate_page(
        &self,
        expected_generation: u64,
        page_start: u64,
        page_size: u32,
        page: AddressPage,
    ) -> (rows: Result<Vec<AddressRecord>, ModelIssue>)
        ensures
            match rows {
                Ok(rows) => self@.validated(expected_generation, page_start, page_size, page) == Ok::<
                    Seq<AddressRecord>,
                    IssueView,
                >(rows@),
                Err(issue) => self@.validated(expected_generation, page_start, page_size, page)
                    == Err::<Seq<AddressRecord>, IssueView>(issue@),
            },
    {
        if page.generation != expected_generation {
            return Err(ModelIssue::Stale(STALE_WHILE_LOADING.to_owned()));
        }
        if !page.error_message.as_str().is_empty() {
            return Err(ModelIssue::Page(page.error_message));
        }
        if page.start != page_start || page.total_count != self.total_count
            || page.raw_total_count != self.raw_total_count {
            return Err(ModelIssue::Stale(STALE_PAGING_CONTRACT.to_owned()));
        }
        let end = page_start.saturating_add(page_size as u64);
        let expected_end = if end < page.total_count {
            end
        } else {
            page.total_count
        };
        if page_start.saturating_add(page.rows.len() as u64) != expected_end {
            return Err(ModelIssue::Page(UNEXPECTED_PAGE_LENGTH.to_owned()));
        }
        Ok(page.rows)
    }

    /// The position of the pending page of `generation` at `page_start`.
    fn find_pending(&self, generation: u64, page_start: u64) -> (position: Option<usize>)
        requires
            self.wf(),
        ensures
            match position {
                Some(i) => {
                    &&& pending_position(self@.pending, generation, page_start) == Some(i as int)
                    &&& i < self.pending@.len()
                },
                None => pending_position(self@.pending, generation, page_start) is None,
            },
    {
        let ghost pending = self@.pending;
        assert(pending.len() == self.pending@.len());
        assert(forall|j: int| 0 <= j < pending.len() ==> pending[j] == #[trigger] self.pending@[j]@);
        let mut i: usize = 0;
        let mut found = false;
        while i < self.pending.len() && !found
            invariant
                pending == self@.pending,
                pending.len() == self.pending@.len(),
                forall|j: int| 0 <= j < pending.len() ==> pending[j] == #[trigger] self.pending@[j]@,
                i <= self.pending@.len(),
                found ==> i < self.pending@.len() && pending[i as int].generation == generation
                    && pending[i as int].page_start == page_start,
                forall|j: int|
                    0 <= j < i ==> !(pending[j].generation == generation && pending[j].page_start
                        == page_start),
            decreases self.pending@.len() - i, if found { 0int } else { 1int },
        {
            proof {
                assert(pending[i as int] == self.pending@[i as int]@);
            }
            if self.pending[i].generation == generation && self.pending[i].page_start == page_start {
                found = true;
            } else {
                i += 1;
            }
        }
        if found {
            proof {
                let c = pending_position(pending, generation, page_start)->0;
                assert(c == i as int) by {
                    if c != i as int {
                        if c < i as int {
                            assert(pending[c].page_start != pending[i as int].page_start);
                        } else {
                            assert(pending[i as int].page_start != pending[c].page_start);
                        }
                    }
                }
            }
            Some(i)
        } else {
            proof {
                assert(pending_position(pending, generation, page_start) is None);
            }
            None
        }
    }

    /// Drops the pending page of `generation` at `page_start`, if any.
    fn remove_pending(&mut self, generation: u64, page_start: u64)
        requires
            old(self).wf(),
        ensures
            final(self).wf(),
            final(self)@ == old(self)@.without_pending(generation, page_start),
    {
        let ghost pending = self@.pending;
        match self.find_pending(generation, page_start) {
            Some(i) => {
                self.pending.remove(i);
                proof {
                    assert(self@.pending =~= pending.remove(i as int));
                    assert(self@ =~= old(self)@.without_pending(generation, page_start));
                    let o = old(self)@;
                    assert forall|a: int| 0 <= a < self@.pending.len() implies pending_wf(
                        self@,
                        #[trigger] self@.pending[a],
                    ) by {
                        if a < i {
                            assert(pending_wf(o, o.pending[a]));
                        } else {
                            assert(pending_wf(o, o.pending[a + 1]));
                        }
                    }
                    assert forall|a: int, b: int| 0 <= a < b < self@.pending.len() implies #[trigger] self@.pending[a].page_start
                        != #[trigger] self@.pending[b].page_start by {
                        let oa = if a < i { a } else { a + 1 };
                        let ob = if b < i { b } else { b + 1 };
                        assert(o.pending[oa].page_start != o.pending[ob].page_start);
                    }
                }
            },
            None => {},
        }
    }

    /// Applies what the loader answered for a load of generation
    /// `expected_generation` at `page_start`: a valid page replaces the
    /// placeholders with loaded rows, a page error or a failed load fills
    /// the page with error rows and reports the message, and a page of
    /// another generation or paging contract clears the model.
    pub fn apply_loaded_page(
        &mut self,
        expected_generation: u64,
        page_start: u64,
        page_size: u32,
        result: Result<AddressPage, String>,
    )
        requires
            old(self).wf(),
        ensures
            final(self).wf(),
            final(self)@ == old(self)@.after_page_result(
                expected_generation,
                page_start,
                page_size,
                result,
            ),
    {
        match result {
            Ok(page) => match self.validate_page(expected_generation, page_start, page_size, page) {
                Ok(rows) => self.insert_loaded_page(page_start, rows),
                Err(ModelIssue::Page(message)) => self.cache_page_error(page_start, message),
                Err(issue) => self.invalidate(issue),
            },
            Err(message) => self.cache_page_error(page_start, message),
        }
    }

    /// Loads the page of generation `expected_generation` at `page_start`
    /// through `loader`, unless the model has moved to another generation
    /// or has no loader; either way the page is no longer pending.
    pub fn load_page<F>(&mut self, expected_generation: u64, page_start: u64, loader: &F) where
        F: Fn(u64, u64, u32, bool) -> Result<AddressPage, String>,

        requires
            old(self).wf(),
            forall|generation: u64, start: u64, count: u32, refresh: bool|
                loader.requires((generation, start, count, refresh)),
        ensures
            final(self).wf(),
            if old(self)@.generation != expected_generation || expected_generation == 0
                || !old(self)@.configured {
                final(self)@ == old(self)@.without_pending(expected_generation, page_start)
            } else {
                exists|result: Result<AddressPage, String>|
                    loader.ensures((expected_generation, page_start, old(self)@.page_size, false), result)
                        && final(self)@ == old(self)@.without_pending(
                        expected_generation,
                        page_start,
                    ).after_page_result(expected_generation, page_start, old(self)@.page_size, result)
            },
    {
        if self.generation != expected_generation || expected_generation == 0 || !self.configured {
            self.remove_pending(expected_generation, page_start);
            return ;
        }
        let page_size = self.page_size;
        let result = loader(expected_generation, page_start, page_size, false);
        let ghost answered = result;
        self.remove_pending(expected_generation, page_start);
        self.apply_loaded_page(expected_generation, page_start, page_size, result);
        proof {
            assert(loader.ensures((expected_generation, page_start, page_size, false), answered));
        }
    }
}

impl AddressListModel {
    /// The object the list view shows at `position`; see `item_lookup`.
    pub fn item(&mut self, position: u32) -> (item: Option<RowObject<VirtualAddressRow>>)
        requires
            old(self).wf(),
        ensures
            final(self).wf(),
            final(self)@ == old(self)@.item_lookup(position).1,
            match item {
                Some(object) => old(self)@.item_lookup(position).0 == Some(object@),
                None => old(self)@.item_lookup(position).0 is None,
            },
    {
        if position >= self.visible_count {
            return None;
        }
        let page_size = self.page_size;
        proof {
            lemma_page_start_bounds(position, page_size);
        }
        let page_start = ((position / page_size) * page_size) as u64;
        let offset = (position % page_size) as usize;
        proof {
            self.lemma_pages_len();
        }
        let cached = self.cache.item(page_start, offset);
        match cached {
            Some(object) => {
                proof {
                    assert(self@ =~= (AddressListState {
                        recency: touched(old(self)@.recency, page_start),
                        ..old(self)@
                    }));
                    self.lemma_pages_len();
                    old(self)@.lemma_wf_frame(self@);
                }
                return Some(object);
            },
            None => {},
        }
        proof {
            assert(self@ == old(self)@);
        }
        let generation = self.generation;
        match self.find_pending(generation, page_start) {
            Some(i) => {
                proof {
                    assert(pending_wf(self@, self@.pending[i as int]));
                    assert(self@.pending[i as int] == self.pending@[i as int]@);
                }
                let object = self.pending[i].items[offset].exact_copy();
                proof {
                    assert(objects_view(self.pending@[i as int].items@)[offset as int]
                        == self.pending@[i as int].items@[offset as int]@);
                }
                Some(object)
            },
            None => {
                let ghost base = self@.next_handle;
                let ghost start = self@;
                let visible_count = self.visible_count as u64;
                let count: u64 = if (page_size as u64) < visible_count - page_start {
                    page_size as u64
                } else {
                    visible_count - page_start
                };
                let ghost n = shown_rows(start.page_size, start.visible_count, page_start);
                assert(count as nat == n);
                let mut items: Vec<RowObject<VirtualAddressRow>> = Vec::new();
                let mut index: u64 = 0;
                while index < count
                    invariant
                        self.wf(),
                        index <= count,
                        count as nat == n,
                        page_start + count <= visible_count,
                        self@ == (AddressListState {
                            next_handle: handle_after(base, index as nat),
                            ..start
                        }),
                        objects_view(items@) == placeholder_objects(page_start, n, base).take(
                            index as int,
                        ),
                    decreases count - index,
                {
                    let handle = self.allocate_handle();
                    let object = RowObject {
                        handle,
                        row: VirtualAddressRow::Loading { index: page_start + index },
                    };
                    let ghost before = items@;
                    items.push(object);
                    index += 1;
                    proof {
                        assert(objects_view(items@) =~= objects_view(before).push(object@));
                        assert(objects_view(items@) =~= placeholder_objects(page_start, n, base).take(
                            index as int,
                        ));
                    }
                }
                proof {
                    assert(objects_view(items@) =~= placeholder_objects(page_start, n, base));
                    assert(offset < items@.len());
                    assert(objects_view(items@)[offset as int] == items@[offset as int]@);
                }
                let object = items[offset].exact_copy();
                let ghost mid = self@;
                let page = PendingPage { generation, page_start, items };
                self.pending.push(page);
                let event = ModelEvent::ScheduleLoad { generation, page_start };
                proof {
                    Self::lemma_events_push(self.events@, event);
                }
                self.events.push(event);
                proof {
                    assert(self@.pending =~= mid.pending.push(page@));
                    let target = old(self)@.item_lookup(position).1;
                    assert(self@ =~= target);
                    let o = old(self)@;
                    assert forall|a: int| 0 <= a < self@.pending.len() implies pending_wf(
                        self@,
                        #[trigger] self@.pending[a],
                    ) by {
                        if a < o.pending.len() {
                            assert(pending_wf(o, o.pending[a]));
                        }
                    }
                    assert forall|a: int, b: int| 0 <= a < b < self@.pending.len() implies #[trigger] self@.pending[a].page_start
                        != #[trigger] self@.pending[b].page_start by {
                        if b == o.pending.len() {
                            assert(pending_wf(o, o.pending[a]));
                            assert(!(o.pending[a].generation == generation && o.pending[a].page_start
                                == page_start));
                        }
                    }
                }
                Some(object)
            },
        }
    }

    /// Whether the object at `position` shows a loaded record; see
    /// `loaded_at`.
    pub fn is_loaded(&mut self, position: u32) -> (loaded: bool)
        requires
            old(self).wf(),
        ensures
            final(self).wf(),
            loaded == old(self)@.loaded_at(position).0,
            final(self)@ == old(self)@.loaded_at(position).1,
    {
        if position >= self.visible_count {
            return false;
        }
        let page_size = self.page_size;
        proof {
            lemma_page_start_bounds(position, page_size);
            self.lemma_pages_len();
        }
        let page_start = ((position / page_size) * page_size) as u64;
        let offset = (position % page_size) as usize;
        let cached = self.cache.item(page_start, offset);
        proof {
            self.lemma_pages_len();
            old(self)@.lemma_wf_frame(self@);
        }
        match cached {
            Some(object) => {
                proof {
                    assert(self@ =~= (AddressListState {
                        recency: touched(old(self)@.recency, page_start),
                        ..old(self)@
                    }));
                }
                match object.row {
                    VirtualAddressRow::Loaded { .. } => true,
                    _ => false,
                }
            },
            None => {
                proof {
                    assert(self@ == old(self)@);
                }
                false
            },
        }
    }
}

impl AddressListModel {
    /// Writes the refreshed `rows` into the objects of the cached page at
    /// `page_start` that still show the same entries, up to the first
    /// object that no longer fits; see `updated_in_place`.
    fn update_page_in_place(&mut self, page_start: u64, rows: &Vec<AddressRecord>) -> (update: RefreshUpdate)
        requires
            old(self).wf(),
        ensures
            final(self).wf(),
            (update, final(self)@) == old(self)@.updated_in_place(page_start, rows@),
    {
        proof {
            self.lemma_pages_len();
        }
        let items = match self.cache.page_items(page_start) {
            Some(items) => items,
            None => {
                return RefreshUpdate::Replace;
            },
        };
        let ghost touched_state = self@;
        let ghost view_items = objects_view(items@);
        proof {
            assert(touched_state =~= (AddressListState {
                recency: touched(old(self)@.recency, page_start),
                ..old(self)@
            }));
            assert(view_items == old(self)@.pages[page_start]);
            self.lemma_pages_len();
            old(self)@.lemma_wf_frame(self@);
        }
        if items.len() != rows.len() {
            return RefreshUpdate::Stale;
        }
        let count = items.len();
        let mut stop: usize = 0;
        let mut replace = false;
        while stop < count && fits_record(&items[stop], &rows[stop])
            invariant
                count == items@.len() == rows@.len(),
                view_items == objects_view(items@),
                stop <= count,
                leading_fit(view_items, rows@, stop as int),
                replace <==> exists|j: int| 0 <= j < stop && (#[trigger] view_items[j]).row is Error,
            decreases count - stop,
        {
            proof {
                assert(view_items[stop as int] == items@[stop as int]@);
            }
            match &items[stop].row {
                VirtualAddressRow::Error { .. } => {
                    replace = true;
                },
                _ => {},
            }
            stop += 1;
        }
        proof {
            if stop < count {
                assert(view_items[stop as int] == items@[stop as int]@);
            }
            assert forall|k: int| 0 <= k <= count implies (leading_fit(view_items, rows@, k) <==> k
                <= stop) by {
                if k > stop {
                    assert(view_items[stop as int] == items@[stop as int]@);
                    assert(!fits(view_items[stop as int], rows@[stop as int]));
                }
            }
        }
        let ghost start_events = self@.events;
        let mut written: Vec<RowObject<VirtualAddressRow>> = Vec::new();
        let mut k: usize = 0;
        while k < count
            invariant
                self.wf(),
                touched_state.wf(),
                count == items@.len() == rows@.len(),
                view_items == objects_view(items@),
                stop <= count,
                k <= count,
                forall|n: int| 0 <= n <= count ==> (leading_fit(view_items, rows@, n) <==> n <= stop),
                stop < count ==> !fits(view_items[stop as int], rows@[stop as int]),
                self@ == (AddressListState {
                    events: start_events + written_events(view_items, rows@, k as nat),
                    ..touched_state
                }),
                objects_view(written@) == written_objects(view_items, rows@).take(k as int),
            decreases count - k,
        {
            proof {
                assert(view_items[k as int] == items@[k as int]@);
            }
            let ghost before_written = written@;
            let ghost before_events = self@.events;
            if k < stop && keeps_same_entry(&items[k], &rows[k]) {
                let index = match &items[k].row {
                    VirtualAddressRow::Loaded { index, .. } => *index,
                    VirtualAddressRow::Loading { index } => *index,
                    VirtualAddressRow::Error { index, .. } => *index,
                };
                let object = RowObject {
                    handle: items[k].handle,
                    row: VirtualAddressRow::Loaded { index, record: rows[k].exact_copy() },
                };
                let event = ModelEvent::RowUpdated(object.exact_copy());
                proof {
                    Self::lemma_events_push(self.events@, event);
                    assert(written_at(view_items, rows@, k as int));
                    assert(object@ == rewritten(view_items[k as int], rows@[k as int]));
                }
                self.events.push(event);
                written.push(object);
                proof {
                    assert(self@.events =~= start_events + written_events(view_items, rows@, (k + 1) as nat));
                    assert(objects_view(written@) =~= objects_view(before_written).push(object@));
                }
            } else {
                written.push(items[k].exact_copy());
                proof {
                    assert(objects_view(written@) =~= objects_view(before_written).push(items@[k as int]@));
                    if k == stop {
                        assert(!fits(view_items[k as int], rows@[k as int]));
                    }
                    assert(!written_at(view_items, rows@, k as int));
                    assert(written_events(view_items, rows@, (k + 1) as nat) == written_events(
                        view_items,
                        rows@,
                        k as nat,
                    ));
                }
            }
            k += 1;
            proof {
                assert(objects_view(written@) =~= written_objects(view_items, rows@).take(k as int));
                assert(self@ =~= (AddressListState {
                    events: start_events + written_events(view_items, rows@, k as nat),
                    ..touched_state
                }));
                touched_state.lemma_wf_frame(self@);
            }
        }
        proof {
            assert(objects_view(written@) =~= written_objects(view_items, rows@));
            self.lemma_pages_len();
        }
        let ghost stored = written@;
        self.cache.overwrite(page_start, CachedPage(written));
        proof {
            assert(self@.pages =~= old(self)@.pages.insert(page_start, objects_view(stored)));
            self.lemma_pages_len();
            old(self)@.lemma_wf_frame(self@);
            assert(self@ =~= old(self)@.updated_in_place(page_start, rows@).1);
        }
        if stop < count {
            proof {
                assert(!leading_fit(view_items, rows@, count as int));
            }
            RefreshUpdate::Stale
        } else if replace {
            RefreshUpdate::Replace
        } else {
            RefreshUpdate::Updated
        }
    }

    /// Applies what the loader answered for a refresh of the page of
    /// `generation` at `page_start`; see `refreshed`.
    pub fn apply_refreshed_page(
        &mut self,
        generation: u64,
        page_start: u64,
        page_size: u32,
        result: Result<AddressPage, String>,
    ) -> (records: Option<Vec<AddressRecord>>)
        requires
            old(self).wf(),
        ensures
            final(self).wf(),
            final(self)@ == old(self)@.refreshed(generation, page_start, page_size, result).1,
            match records {
                Some(records) => old(self)@.refreshed(generation, page_start, page_size, result).0
                    == Some(records@),
                None => old(self)@.refreshed(generation, page_start, page_size, result).0 is None,
            },
    {
        let rows = match result {
            Ok(page) => match self.validate_page(generation, page_start, page_size, page) {
                Ok(rows) => rows,
                Err(ModelIssue::Page(message)) => {
                    self.report_issue(ModelIssue::Page(message));
                    return Some(Vec::new());
                },
                Err(issue) => {
                    self.invalidate(issue);
                    return None;
                },
            },
            Err(message) => {
                self.report_issue(ModelIssue::Page(message));
                return Some(Vec::new());
            },
        };
        match self.update_page_in_place(page_start, &rows) {
            RefreshUpdate::Updated => Some(rows),
            RefreshUpdate::Replace => {
                self.insert_loaded_page(page_start, copy_records(&rows));
                Some(rows)
            },
            RefreshUpdate::Stale => {
                self.invalidate(ModelIssue::Stale(STALE_HIERARCHY.to_owned()));
                None
            },
        }
    }
}

/// The distinct values of `values` in increasing order.
pub fn sorted_distinct(values: &[u64]) -> (sorted: Vec<u64>)
    ensures
        strictly_increasing(sorted@),
        forall|x: u64| sorted@.contains(x) <==> values@.contains(x),
{
    let mut sorted: Vec<u64> = Vec::new();
    let mut i: usize = 0;
    while i < values.len()
        invariant
            i <= values@.len(),
            strictly_increasing(sorted@),
            forall|x: u64| sorted@.contains(x) <==> values@.subrange(0, i as int).contains(x),
        decreases values@.len() - i,
    {
        let x = values[i];
        let mut pos: usize = 0;
        while pos < sorted.len() && sorted[pos] < x
            invariant
                pos <= sorted@.len(),
                forall|j: int| 0 <= j < pos ==> sorted@[j] < x,
            decreases sorted@.len() - pos,
        {
            pos += 1;
        }
        let ghost before = sorted@;
        if pos == sorted.len() || sorted[pos] != x {
            sorted.insert(pos, x);
            proof {
                assert forall|a: int, b: int| 0 <= a < b < sorted@.len() implies sorted@[a] < sorted@[b] by {
                    if b < pos {
                    } else if b == pos {
                    } else if a < pos {
                        assert(sorted@[b] == before[b - 1]);
                        if a < pos {
                            assert(before[a] < x);
                        }
                        if pos < before.len() {
                            assert(before[pos as int] > x);
                            assert(before[pos as int] <= before[b - 1]);
                        }
                    } else if a == pos {
                        assert(before[pos as int] > x);
                        assert(before[pos as int] <= before[b - 1]);
                    } else {
                        assert(sorted@[a] == before[a - 1]);
                    }
                }
            }
        }
        proof {
            let seen = values@.subrange(0, i as int);
            let next = values@.subrange(0, i + 1);
            assert(next =~= seen.push(x));
            assert forall|y: u64| sorted@.contains(y) <==> next.contains(y) by {
                if sorted@.contains(y) {
                    let w = choose|w: int| 0 <= w < sorted@.len() && sorted@[w] == y;
                    if y != x {
                        if sorted@.len() != before.len() {
                            if w < pos {
                                assert(before[w] == y);
                            } else {
                                assert(before[w - 1] == y);
                            }
                        }
                        assert(before.contains(y));
                        assert(seen.contains(y));
                        let v = choose|v: int| 0 <= v < seen.len() && seen[v] == y;
                        assert(next[v] == y);
                    } else {
                        assert(next[i as int] == y);
                    }
                }
                if next.contains(y) {
                    let v = choose|v: int| 0 <= v < next.len() && next[v] == y;
                    if v < i {
                        assert(seen[v] == y);
                        assert(before.contains(y));
                        let w = choose|w: int| 0 <= w < before.len() && before[w] == y;
                        if sorted@.len() != before.len() {
                            if w < pos {
                                assert(sorted@[w] == y);
                            } else {
                                assert(sorted@[w + 1] == y);
                            }
                        } else {
                            assert(sorted@[w] == y);
                        }
                    } else {
                        if sorted@.len() != before.len() {
                            assert(sorted@[pos as int] == y);
                        } else {
                            assert(sorted@[pos as int] == y);
                        }
                    }
                }
            }
        }
        i += 1;
    }
    proof {
        assert(values@.subrange(0, values@.len() as int) =~= values@);
    }
    sorted
}

/// The queue of events is a prefix of itself with more events after it.
proof fn lemma_prefix_append(a: Seq<EventView>, b: Seq<EventView>)
    ensures
        a.is_prefix_of(a + b),
{
    assert((a + b).subrange(0, a.len() as int) =~= a);
}

/// A prefix of a prefix of a queue of events is a prefix of it.
proof fn lemma_prefix_trans(a: Seq<EventView>, b: Seq<EventView>, c: Seq<EventView>)
    requires
        a.is_prefix_of(b),
        b.is_prefix_of(c),
    ensures
        a.is_prefix_of(c),
{
    assert(c.subrange(0, a.len() as int) =~= b.subrange(0, a.len() as int));
}

impl AddressListState {
    /// A refresh step of a cached page either keeps the model's generation
    /// and counts, changing only that page, or clears the model; it only
    /// appends events.
    pub proof fn lemma_refresh_step(
        self,
        generation: u64,
        page_start: u64,
        page_size: u32,
        result: Result<AddressPage, String>,
    )
        requires
            self.wf(),
            self.configured,
            self.pages.contains_key(page_start),
        ensures
            ({
                let (records, next) = self.refreshed(generation, page_start, page_size, result);
                &&& next.page_size == self.page_size
                &&& next.cache_pages == self.cache_pages
                &&& self.events.is_prefix_of(next.events)
                &&& match records {
                    Some(_) => {
                        &&& next.generation == self.generation
                        &&& next.total_count == self.total_count
                        &&& next.raw_total_count == self.raw_total_count
                        &&& next.visible_count == self.visible_count
                        &&& next.configured == self.configured
                        &&& next.pending == self.pending
                        &&& next.pages.dom() == self.pages.dom()
                        &&& forall|k: u64|
                            #![trigger next.pages[k]]
                            next.pages.contains_key(k) && k != page_start ==> next.pages[k]
                                == self.pages[k]
                    },
                    None => next.is_cleared(),
                }
            }),
    {
        let (records, next) = self.refreshed(generation, page_start, page_size, result);
        let cleared = self.cleared();
        assert(cleared.pages.dom() =~= Set::<u64>::empty());
        lemma_prefix_append(self.events, Seq::empty());
        assert(self.events + Seq::<EventView>::empty() =~= self.events);
        if self.visible_count > 0 {
            lemma_prefix_append(
                self.events,
                seq![EventView::ItemsChanged { position: 0, removed: self.visible_count, added: 0 }],
            );
            assert(self.events + seq![EventView::ItemsChanged { position: 0, removed: self.visible_count, added: 0 }]
                =~= cleared.events);
        }
        match result {
            Err(message) => {
                lemma_prefix_append(self.events, seq![EventView::Issue(IssueView::Page(message@))]);
                assert(self.events + seq![EventView::Issue(IssueView::Page(message@))] =~= self.events.push(
                    EventView::Issue(IssueView::Page(message@)),
                ));
            },
            Ok(page) => match self.validated(generation, page_start, page_size, page) {
                Err(IssueView::Page(message)) => {
                    lemma_prefix_append(self.events, seq![EventView::Issue(IssueView::Page(message))]);
                    assert(self.events + seq![EventView::Issue(IssueView::Page(message))] =~= self.events.push(
                        EventView::Issue(IssueView::Page(message)),
                    ));
                },
                Err(issue) => {
                    lemma_prefix_append(cleared.events, seq![EventView::Issue(issue)]);
                    assert(cleared.events + seq![EventView::Issue(issue)] =~= cleared.events.push(
                        EventView::Issue(issue),
                    ));
                },
                Ok(rows) => {
                    let (update, updated) = self.updated_in_place(page_start, rows);
                    let items = self.pages[page_start];
                    let written = written_events(items, rows, items.len());
                    if items.len() == rows.len() {
                        lemma_prefix_append(self.events, written);
                        assert(updated.pages.dom() =~= self.pages.dom());
                    } else {
                        assert(updated.events =~= self.events + Seq::<EventView>::empty());
                    }
                    assert(self.events.is_prefix_of(updated.events));
                    match update {
                        RefreshUpdate::Updated => {
                            assert(next.pages.dom() =~= self.pages.dom());
                        },
                        RefreshUpdate::Replace => {
                            let bumped = AddressListState {
                                next_handle: handle_after(updated.next_handle, rows.len()),
                                ..updated
                            };
                            assert(bumped.victim(page_start) is None);
                            lemma_prefix_append(updated.events, bumped.notify(page_start));
                            lemma_prefix_trans(self.events, updated.events, next.events);
                            assert(next.pages.dom() =~= self.pages.dom());
                        },
                        RefreshUpdate::Stale => {
                            let ucleared = updated.cleared();
                            assert(ucleared.pages.dom() =~= Set::<u64>::empty());
                            let issue = seq![EventView::Issue(IssueView::Stale(STALE_HIERARCHY@))];
                            lemma_prefix_append(ucleared.events, issue);
                            assert(ucleared.events + issue =~= ucleared.events.push(
                                EventView::Issue(IssueView::Stale(STALE_HIERARCHY@)),
                            ));
                            if updated.visible_count > 0 {
                                let gone = seq![EventView::ItemsChanged { position: 0, removed: updated.visible_count, added: 0 }];
                                lemma_prefix_append(updated.events, gone);
                                assert(updated.events + gone =~= ucleared.events);
                            } else {
                                lemma_prefix_append(updated.events, Seq::empty());
                                assert(updated.events + Seq::<EventView>::empty() =~= ucleared.events);
                            }
                            lemma_prefix_trans(updated.events, ucleared.events, next.events);
                            lemma_prefix_trans(self.events, updated.events, next.events);
                        },
                    }
                },
            },
        }
    }
}

impl AddressListModel {
    /// Reloads the cached pages among `page_starts`, each once and in
    /// increasing order, through `loader`, and returns the refreshed
    /// records. Objects that still show the same records are updated in
    /// place; a page that no longer fits clears the model and ends the
    /// refresh. Without a loader nothing happens.
    pub fn refresh_pages<F>(&mut self, page_starts: &[u64], loader: &F) -> (refreshed: Vec<AddressRecord>) where
        F: Fn(u64, u64, u32, bool) -> Result<AddressPage, String>,

        requires
            old(self).wf(),
            forall|generation: u64, start: u64, count: u32, refresh: bool|
                loader.requires((generation, start, count, refresh)),
        ensures
            final(self).wf(),
            !old(self)@.configured ==> refreshed@.len() == 0 && final(self)@ == old(self)@,
            old(self)@.configured ==> refresh_frame(old(self)@, final(self)@, page_starts@),
            old(self)@.configured ==> exists|
                starts: Seq<u64>,
                answers: Seq<Result<AddressPage, String>>,
            |
                {
                    let run = #[trigger] old(self)@.refresh_run(
                        old(self)@.generation,
                        old(self)@.page_size,
                        starts,
                        answers,
                    );
                    &&& strictly_increasing(starts)
                    &&& forall|x: u64| starts.contains(x) <==> page_starts@.contains(x)
                    &&& run.0 == refreshed@
                    &&& run.1 == final(self)@
                    &&& run.2.len() == answers.len()
                    &&& forall|k: int|
                        0 <= k < answers.len() ==> loader.ensures(
                            (old(self)@.generation, run.2[k], old(self)@.page_size, true),
                            #[trigger] answers[k],
                        )
                },
    {
        let generation = self.generation;
        if !self.configured {
            return Vec::new();
        }
        let page_size = self.page_size;
        let starts = sorted_distinct(page_starts);
        let mut refreshed: Vec<AddressRecord> = Vec::new();
        let mut i: usize = 0;
        let mut stopped = false;
        let ghost answers: Seq<Result<AddressPage, String>> = Seq::empty();
        let ghost asked: Seq<u64> = Seq::empty();
        proof {
            lemma_prefix_append(old(self)@.events, Seq::empty());
            assert(old(self)@.events + Seq::<EventView>::empty() =~= old(self)@.events);
            assert(starts@.skip(0) =~= starts@);
            assert forall|future: Seq<Result<AddressPage, String>>|
                #[trigger] old(self)@.refresh_run(generation, page_size, starts@, answers + future)
                    == ({
                    let (more, last, later) = self@.refresh_run(
                        generation,
                        page_size,
                        starts@.skip(i as int),
                        future,
                    );
                    (refreshed@ + more, last, asked + later)
                }) by {
                assert(answers + future =~= future);
                let (more, last, later) = self@.refresh_run(generation, page_size, starts@, future);
                assert(refreshed@ + more =~= more);
                assert(asked + later =~= later);
            }
        }
        while i < starts.len() && !stopped
            invariant
                self.wf(),
                asked.len() == answers.len(),
                forall|k: int|
                    0 <= k < answers.len() ==> loader.ensures(
                        (generation, asked[k], page_size, true),
                        #[trigger] answers[k],
                    ),
                forall|future: Seq<Result<AddressPage, String>>|
                    #[trigger] old(self)@.refresh_run(generation, page_size, starts@, answers + future)
                        == if stopped {
                        (refreshed@, self@, asked)
                    } else {
                        let (more, last, later) = self@.refresh_run(
                            generation,
                            page_size,
                            starts@.skip(i as int),
                            future,
                        );
                        (refreshed@ + more, last, asked + later)
                    },
                forall|generation: u64, start: u64, count: u32, refresh: bool|
                    loader.requires((generation, start, count, refresh)),
                old(self)@.configured,
                generation == old(self)@.generation,
                page_size == old(self)@.page_size,
                i <= starts@.len(),
                forall|x: u64| starts@.contains(x) <==> page_starts@.contains(x),
                refresh_frame(old(self)@, self@, page_starts@),
                stopped ==> self@.is_cleared(),
                !stopped ==> self@.generation == old(self)@.generation && self@.configured,
            decreases starts@.len() - i, if stopped { 0int } else { 1int },
        {
            let page_start = starts[i];
            proof {
                self.lemma_pages_len();
                assert(starts@.skip(i as int)[0] == page_start);
                assert(starts@.skip(i as int).drop_first() =~= starts@.skip(i + 1));
            }
            if self.generation == generation && self.cache.contains(page_start) {
                let result = loader(generation, page_start, page_size, true);
                let ghost mid = self@;
                let ghost before = refreshed@;
                proof {
                    assert(starts@.contains(page_start));
                    mid.lemma_refresh_step(generation, page_start, page_size, result);
                }
                match self.apply_refreshed_page(generation, page_start, page_size, result) {
                    Some(mut records) => {
                        refreshed.append(&mut records);
                    },
                    None => {
                        stopped = true;
                    },
                }
                proof {
                    let old_answers = answers;
                    let old_asked = asked;
                    answers = answers.push(result);
                    asked = asked.push(page_start);
                    assert forall|k: int|
                        0 <= k < answers.len() implies loader.ensures(
                        (generation, asked[k], page_size, true),
                        #[trigger] answers[k],
                    ) by {
                        if k < old_answers.len() {
                            assert(answers[k] == old_answers[k]);
                            assert(asked[k] == old_asked[k]);
                        }
                    }
                    assert forall|future: Seq<Result<AddressPage, String>>|
                        #[trigger] old(self)@.refresh_run(generation, page_size, starts@, answers + future)
                            == if stopped {
                            (refreshed@, self@, asked)
                        } else {
                            let (more, last, later) = self@.refresh_run(
                                generation,
                                page_size,
                                starts@.skip(i + 1),
                                future,
                            );
                            (refreshed@ + more, last, asked + later)
                        } by {
                        let rest = seq![result] + future;
                        assert(answers + future =~= old_answers + rest);
                        assert(rest[0] == result);
                        assert(rest.drop_first() =~= future);
                        let (records, next) = mid.refreshed(generation, page_start, page_size, result);
                        if stopped {
                            assert(old_asked + seq![page_start] =~= asked);
                            assert(before + Seq::<AddressRecord>::empty() =~= refreshed@);
                        } else {
                            let (more, last, later) = self@.refresh_run(
                                generation,
                                page_size,
                                starts@.skip(i + 1),
                                future,
                            );
                            assert(before + (records->0 + more) =~= refreshed@ + more);
                            assert(old_asked + (seq![page_start] + later) =~= asked + later);
                        }
                    }
                }
                proof {
                    let o = old(self)@;
                    let n = self@;
                    assert(o.events.is_prefix_of(n.events)) by {
                        assert(mid.events.is_prefix_of(n.events));
                        assert(o.events.is_prefix_of(mid.events));
                        assert(n.events.subrange(0, o.events.len() as int) =~= mid.events.subrange(
                            0,
                            o.events.len() as int,
                        ));
                    }
                    if !stopped {
                        assert forall|k: u64|
                            #![trigger n.pages[k]]
                            n.pages.contains_key(k) && !page_starts@.contains(k) implies n.pages[k]
                            == o.pages[k] by {
                            assert(k != page_start);
                            assert(mid.pages.contains_key(k));
                        }
                    }
                }
            }
            i += 1;
        }
        proof {
            assert(answers + Seq::<Result<AddressPage, String>>::empty() =~= answers);
            if !stopped {
                assert(starts@.skip(i as int) =~= Seq::<u64>::empty());
                assert(refreshed@ + Seq::<AddressRecord>::empty() =~= refreshed@);
                assert(asked + Seq::<u64>::empty() =~= asked);
            }
            let run = old(self)@.refresh_run(generation, page_size, starts@, answers);
            assert(run.0 == refreshed@ && run.1 == self@ && run.2 == asked);
        }
        refreshed
    }
}

} // verus!
