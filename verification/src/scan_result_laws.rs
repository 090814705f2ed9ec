//! What holds of the scan result list across its operations: the state
//! transitions here are the ones that the model's methods promise, so each
//! law speaks of the methods' results.
use crate::bridge::ScanPage;
use crate::page_cache::{RowObject, handle_after};
use crate::paging::{lemma_page_start_bounds, min_u64, page_start_of, saturating_sum, shown_rows};
use crate::paging::visible_for;
use crate::scan_result_model::{
    EventView, IssueView, SCAN_CHANGED_WHILE_LOADING, ScanResultState, ScanRowView, objects_at,
    loaded_objects, pending_position, pending_wf, placeholder_objects, scan_row_index,
};
use vstd::prelude::*;

verus! {

/// The event that passes `issue` to the handler, when one is attached.
pub open spec fn issue_events(configured: bool, issue: IssueView) -> Seq<EventView> {
    if configured {
        seq![EventView::Issue(issue)]
    } else {
        Seq::empty()
    }
}

/// Whether `page` is good to show for a load of generation `generation`
/// at `page_start` with pages of `page_size` positions: current, without
/// an error, under the model's paging contract, and of the expected length.
pub open spec fn page_accepted(
    state: ScanResultState,
    generation: u64,
    page_start: u64,
    page_size: u32,
    page: ScanPage,
) -> bool {
    &&& !page.stale
    &&& page.generation == generation
    &&& page.error_message@.len() == 0
    &&& page.start == page_start
    &&& page.total_count == state.total_count
    &&& saturating_sum(page_start, page.rows@.len()) == min_u64(
        saturating_sum(page_start, page_size as nat),
        page.total_count,
    )
}

/// Asking twice for the object at a position gives the same object; the
/// second request schedules no load and leaves the cached and pending
/// pages and the handles as the first left them.
pub proof fn lemma_item_lookup_is_stable(state: ScanResultState, position: u32)
    requires
        state.wf(),
    ensures
        ({
            let (first, after_first) = state.item_lookup(position);
            let (second, after_second) = after_first.item_lookup(position);
            &&& second == first
            &&& after_second.events == after_first.events
            &&& after_second.pending == after_first.pending
            &&& after_second.pages == after_first.pages
            &&& after_second.next_handle == after_first.next_handle
        }),
{
    if position < state.visible_count {
        let page_start = page_start_of(position, state.page_size);
        let offset = position - page_start;
        if state.pages.contains_key(page_start) && offset < state.pages[page_start].len() {
        } else if pending_position(state.pending, state.generation, page_start) is None {
            let after_first = state.item_lookup(position).1;
            let last = state.pending.len() as int;
            assert(after_first.pending[last].generation == state.generation);
            assert(after_first.pending[last].page_start == page_start);
            let j = choose|j: int|
                0 <= j < after_first.pending.len() && after_first.pending[j].generation
                    == state.generation && after_first.pending[j].page_start == page_start;
            if j < last {
                assert(after_first.pending[j] == state.pending[j]);
            }
            assert(pending_position(after_first.pending, state.generation, page_start) == Some(
                last,
            ));
        }
    }
}

/// A page that the engine marks stale, or that belongs to another
/// generation than the load asked for, clears the model: nothing is shown
/// or cached or pending any more, and the stale issue goes to the handler
/// that was attached.
pub proof fn lemma_stale_page_clears(
    state: ScanResultState,
    generation: u64,
    page_start: u64,
    page_size: u32,
    page: ScanPage,
)
    requires
        state.wf(),
        page.stale || page.generation != generation,
    ensures
        ({
            let after = state.after_page_result(generation, page_start, page_size, Ok(page));
            &&& after.is_cleared()
            &&& after.events == state.cleared().events + issue_events(
                state.configured,
                IssueView::Stale(SCAN_CHANGED_WHILE_LOADING@),
            )
        }),
{
    let after = state.after_page_result(generation, page_start, page_size, Ok(page));
    assert(after.pages.dom() =~= Set::<u64>::empty());
    assert(after.events =~= state.cleared().events + issue_events(
        state.configured,
        IssueView::Stale(SCAN_CHANGED_WHILE_LOADING@),
    ));
}

/// The page that storing a page at `page_start` evicts is never that page.
proof fn lemma_victim_is_another_page(state: ScanResultState, page_start: u64)
    requires
        state.wf(),
    ensures
        state.victim(page_start) != Some(page_start),
{
    if state.victim(page_start) is Some {
        state.recency.unique_seq_to_set();
        assert(state.recency.to_set() =~= state.pages.dom());
        assert(state.recency.len() > 0);
        assert(state.recency.contains(state.recency[0]));
    }
}

/// An accepted page replaces the placeholders: afterwards the object at
/// each shown position of the page shows the hit that the engine returned
/// for that position, in a row object of its own.
pub proof fn lemma_loaded_page_shows_its_hits(
    state: ScanResultState,
    generation: u64,
    page: ScanPage,
    position: u32,
)
    requires
        state.wf(),
        position < state.visible_count,
        page_accepted(
            state,
            generation,
            page_start_of(position, state.page_size),
            state.page_size,
            page,
        ),
    ensures
        ({
            let page_start = page_start_of(position, state.page_size);
            let offset = position - page_start;
            let after = state.after_page_result(generation, page_start, state.page_size, Ok(page));
            &&& 0 <= offset < page.rows@.len()
            &&& after.item_lookup(position).0 == Some(
                RowObject {
                    handle: handle_after(state.next_handle, offset as nat),
                    row: ScanRowView::Loaded {
                        index: position as u64,
                        address: page.rows@[offset].address,
                        value: page.rows@[offset].value@,
                    },
                },
            )
        }),
{
    let page_start = page_start_of(position, state.page_size);
    lemma_page_start_bounds(position, state.page_size);
    assert(state.total_count > position);
    assert(saturating_sum(page_start, state.page_size as nat) > position);
    assert(min_u64(saturating_sum(page_start, state.page_size as nat), page.total_count) > position);
    assert(saturating_sum(page_start, page.rows@.len()) > position);
    let bumped = ScanResultState {
        next_handle: handle_after(state.next_handle, page.rows@.len()),
        ..state
    };
    lemma_victim_is_another_page(state, page_start);
    assert(bumped.victim(page_start) == state.victim(page_start));
    let after = state.after_page_result(generation, page_start, state.page_size, Ok(page));
    assert(after == state.with_hits(page_start, page.rows@));
    assert(after.pages.contains_key(page_start));
}

/// Clearing leaves a model that shows nothing, caches and awaits nothing,
/// and has no loader; the list view is told that every shown position went.
pub proof fn lemma_cleared_model_is_empty(state: ScanResultState)
    requires
        state.wf(),
    ensures
        state.cleared().is_cleared(),
        state.cleared().wf(),
        state.cleared().events == if state.visible_count > 0 {
            state.events.push(
                EventView::ItemsChanged { position: 0, removed: state.visible_count, added: 0 },
            )
        } else {
            state.events
        },
{
    assert(state.cleared().pages.dom() =~= Set::<u64>::empty());
    assert(state.cleared().recency.to_set() =~= Set::<u64>::empty());
}

/// A load that fails shows an error row with the loader's message at each
/// shown position of the page and reports the message; the model keeps its
/// results and stays usable.
pub proof fn lemma_failed_load_shows_error_rows(
    state: ScanResultState,
    generation: u64,
    message: String,
    position: u32,
)
    requires
        state.wf(),
        position < state.visible_count,
    ensures
        ({
            let page_start = page_start_of(position, state.page_size);
            let offset = position - page_start;
            let after = state.after_page_result(
                generation,
                page_start,
                state.page_size,
                Err(message),
            );
            &&& after.item_lookup(position).0 == Some(
                RowObject {
                    handle: handle_after(state.next_handle, offset as nat),
                    row: ScanRowView::Error { index: position as u64, message: message@ },
                },
            )
            &&& after.generation == state.generation
            &&& after.total_count == state.total_count
            &&& after.visible_count == state.visible_count
            &&& after.configured == state.configured
            &&& after.pending == state.pending
            &&& state.configured ==> after.events.last() == EventView::Issue(
                IssueView::Page(message@),
            )
        }),
{
    let page_start = page_start_of(position, state.page_size);
    lemma_page_start_bounds(position, state.page_size);
    let n = shown_rows(state.page_size, state.visible_count, page_start);
    assert(position - page_start < n);
    let bumped = ScanResultState { next_handle: handle_after(state.next_handle, n), ..state };
    lemma_victim_is_another_page(state, page_start);
    assert(bumped.victim(page_start) == state.victim(page_start));
    let after = state.after_page_result(generation, page_start, state.page_size, Err(message));
    assert(after.pages.contains_key(page_start));
}

/// The list view gets an object for every shown position and none past
/// them, and the object for a position names that position.
pub proof fn lemma_item_names_its_position(state: ScanResultState, position: u32)
    requires
        state.wf(),
    ensures
        position < state.visible_count <==> state.item_lookup(position).0 is Some,
        position < state.visible_count ==> scan_row_index(state.item_lookup(position).0->0.row)
            == position,
{
    if position < state.visible_count {
        let page_start = page_start_of(position, state.page_size);
        lemma_page_start_bounds(position, state.page_size);
        let offset = position - page_start;
        if state.pages.contains_key(page_start) && offset < state.pages[page_start].len() {
            assert(objects_at(page_start, state.pages[page_start]));
            assert(scan_row_index(state.pages[page_start][offset].row) == page_start + offset);
        } else if pending_position(state.pending, state.generation, page_start) is Some {
            let i = pending_position(state.pending, state.generation, page_start)->0;
            assert(pending_wf(state, state.pending[i]));
            assert(state.pending[i].items[offset].row == (ScanRowView::Loading {
                index: (page_start + offset) as u64,
            }));
        }
    }
}

/// While the page of a position is neither cached nor pending, asking for
/// that position hands out the placeholders of the whole page and
/// schedules its load; asking for any other position of the page before the
/// load runs gives that page's placeholder for it and schedules nothing
/// more.
pub proof fn lemma_placeholders_are_shared(state: ScanResultState, first: u32, other: u32)
    requires
        state.wf(),
        first < state.visible_count,
        other < state.visible_count,
        page_start_of(first, state.page_size) == page_start_of(other, state.page_size),
        !state.pages.contains_key(page_start_of(first, state.page_size)),
        pending_position(state.pending, state.generation, page_start_of(first, state.page_size))
            is None,
    ensures
        ({
            let page_start = page_start_of(first, state.page_size);
            let items = placeholder_objects(
                page_start,
                shown_rows(state.page_size, state.visible_count, page_start),
                state.next_handle,
            );
            let (object, after) = state.item_lookup(first);
            let (again, later) = after.item_lookup(other);
            &&& object == Some(items[first - page_start])
            &&& again == Some(items[other - page_start])
            &&& after.events == state.events.push(
                EventView::ScheduleLoad { generation: state.generation, page_start },
            )
            &&& later.events == after.events
            &&& later.pending == after.pending
        }),
{
    let page_start = page_start_of(first, state.page_size);
    lemma_page_start_bounds(first, state.page_size);
    lemma_page_start_bounds(other, state.page_size);
    let after = state.item_lookup(first).1;
    let last = state.pending.len() as int;
    assert(after.pending[last].generation == state.generation);
    assert(after.pending[last].page_start == page_start);
    let j = choose|j: int|
        0 <= j < after.pending.len() && after.pending[j].generation == state.generation
            && after.pending[j].page_start == page_start;
    if j < last {
        assert(after.pending[j] == state.pending[j]);
    }
    assert(pending_position(after.pending, state.generation, page_start) == Some(last));
}

/// Lookups and loads keep the model's counts, unless a load clears the
/// model; configuring sets them, with the shown positions capped at
/// `u32::MAX`.
pub proof fn lemma_counts_are_kept(
    state: ScanResultState,
    position: u32,
    generation: u64,
    page_start: u64,
    page_size: u32,
    result: Result<ScanPage, String>,
    total_count: u64,
)
    requires
        state.wf(),
    ensures
        state.item_lookup(position).1.total_count == state.total_count,
        state.item_lookup(position).1.visible_count == state.visible_count,
        state.without_pending(generation, page_start).total_count == state.total_count,
        ({
            let after = state.after_page_result(generation, page_start, page_size, result);
            (after.total_count == state.total_count && after.visible_count == state.visible_count)
                || after.is_cleared()
        }),
        state.configured_with(generation, total_count).total_count == total_count,
        state.configured_with(generation, total_count).visible_count == visible_for(total_count),
        state.cleared().is_cleared(),
{
    assert(state.cleared().pages.dom() =~= Set::<u64>::empty());
    let after = state.after_page_result(generation, page_start, page_size, result);
    if after.total_count != state.total_count || after.visible_count != state.visible_count {
        assert(after.pages.dom() =~= Set::<u64>::empty());
    }
}

/// Storing a page below the shown count tells the list view, first of all,
/// that the shown rows of that page changed: from `page_start`, as many rows
/// as the page shows (a whole page, or the rest of the list).
pub proof fn lemma_stored_page_is_announced(
    state: ScanResultState,
    page_start: u64,
    objects: Seq<RowObject<ScanRowView>>,
)
    requires
        state.wf(),
        page_start < state.visible_count,
    ensures
        ({
            let after = state.with_page(page_start, objects);
            let count = if state.page_size < state.visible_count - page_start {
                state.page_size as int
            } else {
                state.visible_count - page_start
            };
            &&& after.events.len() > state.events.len()
            &&& state.events.is_prefix_of(after.events)
            &&& after.events[state.events.len() as int] == EventView::ItemsChanged {
                position: page_start as u32,
                removed: count as u32,
                added: count as u32,
            }
        }),
{
    let after = state.with_page(page_start, objects);
    assert(after.events.subrange(0, state.events.len() as int) =~= state.events);
}

/// A page that the model accepts is announced: the first event that its
/// load adds says that the shown rows of that page changed.
pub proof fn lemma_loaded_page_is_announced(
    state: ScanResultState,
    generation: u64,
    page_start: u64,
    page: ScanPage,
)
    requires
        state.wf(),
        page_start < state.visible_count,
        page_accepted(state, generation, page_start, state.page_size, page),
    ensures
        ({
            let after = state.after_page_result(generation, page_start, state.page_size, Ok(page));
            let count = if state.page_size < state.visible_count - page_start {
                state.page_size as int
            } else {
                state.visible_count - page_start
            };
            &&& after.events.len() > state.events.len()
            &&& after.events[state.events.len() as int] == EventView::ItemsChanged {
                position: page_start as u32,
                removed: count as u32,
                added: count as u32,
            }
        }),
{
    let after = state.after_page_result(generation, page_start, state.page_size, Ok(page));
    let rows = page.rows@;
    let bumped = ScanResultState { next_handle: handle_after(state.next_handle, rows.len()), ..state };
    lemma_stored_page_is_announced(bumped, page_start, loaded_objects(page_start, rows, state.next_handle));
}

} // verus!
