//! What holds of the address list across its operations: the state
//! transitions here are the ones that the model's methods promise, so each
//! law speaks of the methods' results.
use crate::address_list_model::{
    AddressListState, AddressRowView, EventView, IssueView, RefreshUpdate, STALE_HIERARCHY,
    STALE_WHILE_LOADING, loaded_objects, objects_at, pending_position, pending_wf, placeholder_objects,
    refresh_update, row_index,
};
use crate::paging::visible_for;
use crate::bridge::AddressPage;
use crate::page_cache::{RowObject, handle_after};
use crate::paging::{lemma_page_start_bounds, min_u64, page_start_of, saturating_sum, shown_rows};
use vstd::prelude::*;

verus! {

/// The event that passes `issue` to the handler, when one is attached.
pub open spec fn issue_events(configured: bool, issue: IssueView) -> Seq<EventView> {
    if configured {
        seq![EventView::Issue(issue)]
    } else {
        Seq::empty()
    }
}

/// Asking twice for the object at a position gives the same object; the
/// second request schedules no load and leaves the cached and pending
/// pages and the handles as the first left them.
pub proof fn lemma_item_lookup_is_stable(state: AddressListState, position: u32)
    requires
        state.wf(),
    ensures
        ({
            let (first, after_first) = state.item_lookup(position);
            let (second, after_second) = after_first.item_lookup(position);
            &&& second == first
            &&& after_second.events == after_first.events
            &&& after_second.pending == after_first.pending
            &&& after_second.pages == after_first.pages
            &&& after_second.next_handle == after_first.next_handle
        }),
{
    if position < state.visible_count {
        let page_start = page_start_of(position, state.page_size);
        let offset = position - page_start;
        if state.pages.contains_key(page_start) && offset < state.pages[page_start].len() {
        } else if pending_position(state.pending, state.generation, page_start) is None {
            let after_first = state.item_lookup(position).1;
            let last = state.pending.len() as int;
            assert(after_first.pending[last].generation == state.generation);
            assert(after_first.pending[last].page_start == page_start);
            let j = choose|j: int|
                0 <= j < after_first.pending.len() && after_first.pending[j].generation
                    == state.generation && after_first.pending[j].page_start == page_start;
            if j < last {
                assert(after_first.pending[j] == state.pending[j]);
            }
            assert(pending_position(after_first.pending, state.generation, page_start) == Some(
                last,
            ));
        }
    }
}

/// A page of another generation than the load asked for clears the model,
/// whatever else it holds: nothing is shown or cached or pending any more,
/// and the stale issue goes to the handler that was attached.
pub proof fn lemma_page_of_another_generation_clears(
    state: AddressListState,
    generation: u64,
    page_start: u64,
    page_size: u32,
    page: AddressPage,
)
    requires
        state.wf(),
        page.generation != generation,
    ensures
        ({
            let after = state.after_page_result(generation, page_start, page_size, Ok(page));
            &&& after.is_cleared()
            &&& after.events == state.cleared().events + issue_events(
                state.configured,
                IssueView::Stale(STALE_WHILE_LOADING@),
            )
        }),
{
    let after = state.after_page_result(generation, page_start, page_size, Ok(page));
    assert(after.pages.dom() =~= Set::<u64>::empty());
    assert(after.events =~= state.cleared().events + issue_events(
        state.configured,
        IssueView::Stale(STALE_WHILE_LOADING@),
    ));
}

/// A refresh that gets a page of another generation yields no records and
/// clears the model.
pub proof fn lemma_refresh_of_another_generation_clears(
    state: AddressListState,
    generation: u64,
    page_start: u64,
    page_size: u32,
    page: AddressPage,
)
    requires
        state.wf(),
        page.generation != generation,
    ensures
        ({
            let (records, after) = state.refreshed(generation, page_start, page_size, Ok(page));
            &&& records is None
            &&& after.is_cleared()
            &&& after.events == state.cleared().events + issue_events(
                state.configured,
                IssueView::Stale(STALE_WHILE_LOADING@),
            )
        }),
{
    let after = state.refreshed(generation, page_start, page_size, Ok(page)).1;
    assert(after.pages.dom() =~= Set::<u64>::empty());
    assert(after.events =~= state.cleared().events + issue_events(
        state.configured,
        IssueView::Stale(STALE_WHILE_LOADING@),
    ));
}

/// A page that passes validation holds a record for each shown position of
/// the page.
proof fn lemma_valid_page_covers(
    state: AddressListState,
    generation: u64,
    page: AddressPage,
    position: u32,
)
    requires
        state.wf(),
        position < state.visible_count,
        state.validated(
            generation,
            page_start_of(position, state.page_size),
            state.page_size,
            page,
        ) is Ok,
    ensures
        page_start_of(position, state.page_size) <= position,
        position - page_start_of(position, state.page_size) < page.rows@.len(),
        state.validated(generation, page_start_of(position, state.page_size), state.page_size, page)
            == Ok::<Seq<crate::bridge::AddressRecord>, IssueView>(page.rows@),
{
    let page_start = page_start_of(position, state.page_size);
    lemma_page_start_bounds(position, state.page_size);
    assert(page.total_count == state.total_count);
    assert(state.total_count > position);
    assert(saturating_sum(page_start, state.page_size as nat) > position);
    assert(min_u64(saturating_sum(page_start, state.page_size as nat), page.total_count) > position);
    assert(saturating_sum(page_start, page.rows@.len()) > position);
}

/// The page that storing a page at `page_start` evicts is never that page.
proof fn lemma_victim_is_another_page(state: AddressListState, page_start: u64)
    requires
        state.wf(),
    ensures
        state.victim(page_start) != Some(page_start),
{
    if state.victim(page_start) is Some {
        state.recency.unique_seq_to_set();
        assert(state.recency.to_set() =~= state.pages.dom());
        assert(state.recency.len() > 0);
        assert(state.recency.contains(state.recency[0]));
    }
}

/// A page that passes validation replaces the placeholders: afterwards the
/// object at each shown position of the page shows the record that the
/// engine returned for that position, in a row object of its own.
pub proof fn lemma_loaded_page_shows_its_records(
    state: AddressListState,
    generation: u64,
    page: AddressPage,
    position: u32,
)
    requires
        state.wf(),
        position < state.visible_count,
        state.validated(
            generation,
            page_start_of(position, state.page_size),
            state.page_size,
            page,
        ) is Ok,
    ensures
        ({
            let page_start = page_start_of(position, state.page_size);
            let offset = position - page_start;
            let after = state.after_page_result(generation, page_start, state.page_size, Ok(page));
            &&& 0 <= offset < page.rows@.len()
            &&& after.item_lookup(position).0 == Some(
                RowObject {
                    handle: handle_after(state.next_handle, offset as nat),
                    row: AddressRowView::Loaded { index: position as u64, record: page.rows@[offset] },
                },
            )
        }),
{
    let page_start = page_start_of(position, state.page_size);
    lemma_valid_page_covers(state, generation, page, position);
    let bumped = AddressListState {
        next_handle: handle_after(state.next_handle, page.rows@.len()),
        ..state
    };
    lemma_victim_is_another_page(state, page_start);
    assert(bumped.victim(page_start) == state.victim(page_start));
    let after = state.after_page_result(generation, page_start, state.page_size, Ok(page));
    assert(after == state.with_loaded_rows(page_start, page.rows@));
    assert(after.pages.contains_key(page_start));
}

/// A refresh whose records show the same entries as the cached objects of
/// the page updates those objects in place: afterwards the list view gets
/// the same object as before at each position of the page, showing the
/// refreshed record.
pub proof fn lemma_refresh_updates_objects_in_place(
    state: AddressListState,
    generation: u64,
    page: AddressPage,
    position: u32,
)
    requires
        state.wf(),
        position < state.visible_count,
        state.pages.contains_key(page_start_of(position, state.page_size)),
        state.validated(
            generation,
            page_start_of(position, state.page_size),
            state.page_size,
            page,
        ) is Ok,
        refresh_update(state.pages[page_start_of(position, state.page_size)], page.rows@)
            is Updated,
    ensures
        ({
            let page_start = page_start_of(position, state.page_size);
            let offset = position - page_start;
            let (records, after) = state.refreshed(generation, page_start, state.page_size, Ok(page));
            let before = state.item_lookup(position).0;
            &&& records == Some(page.rows@)
            &&& 0 <= offset < page.rows@.len()
            &&& before is Some
            &&& after.item_lookup(position).0 == Some(
                RowObject {
                    handle: before->0.handle,
                    row: AddressRowView::Loaded {
                        index: row_index(before->0.row),
                        record: page.rows@[offset],
                    },
                },
            )
        }),
{
    let page_start = page_start_of(position, state.page_size);
    lemma_valid_page_covers(state, generation, page, position);
    let items = state.pages[page_start];
    assert(items.len() == page.rows@.len());
    let after = state.refreshed(generation, page_start, state.page_size, Ok(page)).1;
    assert(after.pages.contains_key(page_start));
}

/// Clearing leaves a model that shows nothing, caches and awaits nothing,
/// and has no loader; the list view is told that every shown position went.
pub proof fn lemma_cleared_model_is_empty(state: AddressListState)
    requires
        state.wf(),
    ensures
        state.cleared().is_cleared(),
        state.cleared().wf(),
        state.cleared().events == if state.visible_count > 0 {
            state.events.push(
                EventView::ItemsChanged { position: 0, removed: state.visible_count, added: 0 },
            )
        } else {
            state.events
        },
{
    assert(state.cleared().pages.dom() =~= Set::<u64>::empty());
    assert(state.cleared().recency.to_set() =~= Set::<u64>::empty());
}

/// A load that fails shows an error row with the loader's message at each
/// shown position of the page and reports the message; the model keeps its
/// records and stays usable.
pub proof fn lemma_failed_load_shows_error_rows(
    state: AddressListState,
    generation: u64,
    message: String,
    position: u32,
)
    requires
        state.wf(),
        position < state.visible_count,
    ensures
        ({
            let page_start = page_start_of(position, state.page_size);
            let offset = position - page_start;
            let after = state.after_page_result(
                generation,
                page_start,
                state.page_size,
                Err(message),
            );
            &&& after.item_lookup(position).0 == Some(
                RowObject {
                    handle: handle_after(state.next_handle, offset as nat),
                    row: AddressRowView::Error { index: position as u64, message: message@ },
                },
            )
            &&& after.generation == state.generation
            &&& after.total_count == state.total_count
            &&& after.visible_count == state.visible_count
            &&& after.configured == state.configured
            &&& after.pending == state.pending
            &&& state.configured ==> after.events.last() == EventView::Issue(
                IssueView::Page(message@),
            )
        }),
{
    let page_start = page_start_of(position, state.page_size);
    lemma_page_start_bounds(position, state.page_size);
    let n = shown_rows(state.page_size, state.visible_count, page_start);
    assert(position - page_start < n);
    let bumped = AddressListState { next_handle: handle_after(state.next_handle, n), ..state };
    lemma_victim_is_another_page(state, page_start);
    assert(bumped.victim(page_start) == state.victim(page_start));
    let after = state.after_page_result(generation, page_start, state.page_size, Err(message));
    assert(after.pages.contains_key(page_start));
}

/// A refresh whose records no longer match the objects cached for the page
/// means that the hierarchy changed under the model: the refresh yields no
/// records, the model is cleared, and the stale issue is reported.
pub proof fn lemma_refresh_of_changed_hierarchy_clears(
    state: AddressListState,
    generation: u64,
    page_start: u64,
    page: AddressPage,
)
    requires
        state.wf(),
        state.pages.contains_key(page_start),
        state.validated(generation, page_start, state.page_size, page) is Ok,
        refresh_update(state.pages[page_start], page.rows@) is Stale,
    ensures
        ({
            let (records, after) = state.refreshed(generation, page_start, state.page_size, Ok(page));
            &&& records is None
            &&& after.is_cleared()
            &&& state.configured ==> after.events.last() == EventView::Issue(
                IssueView::Stale(STALE_HIERARCHY@),
            )
        }),
{
    let after = state.refreshed(generation, page_start, state.page_size, Ok(page)).1;
    assert(after.pages.dom() =~= Set::<u64>::empty());
}

/// The list view gets an object for every shown position and none past
/// them, and the object for a position names that position.
pub proof fn lemma_item_names_its_position(state: AddressListState, position: u32)
    requires
        state.wf(),
    ensures
        position < state.visible_count <==> state.item_lookup(position).0 is Some,
        position < state.visible_count ==> row_index(state.item_lookup(position).0->0.row)
            == position,
{
    if position < state.visible_count {
        let page_start = page_start_of(position, state.page_size);
        lemma_page_start_bounds(position, state.page_size);
        let offset = position - page_start;
        if state.pages.contains_key(page_start) && offset < state.pages[page_start].len() {
            assert(objects_at(page_start, state.pages[page_start]));
            assert(row_index(state.pages[page_start][offset].row) == page_start + offset);
        } else if pending_position(state.pending, state.generation, page_start) is Some {
            let i = pending_position(state.pending, state.generation, page_start)->0;
            assert(pending_wf(state, state.pending[i]));
            assert(state.pending[i].items[offset].row == (AddressRowView::Loading {
                index: (page_start + offset) as u64,
            }));
        }
    }
}

/// While the page of a position is neither cached nor pending, asking for
/// that position hands out the placeholders of the whole page and
/// schedules its load; asking for any other position of the page before the
/// load runs gives that page's placeholder for it and schedules nothing
/// more.
pub proof fn lemma_placeholders_are_shared(state: AddressListState, first: u32, other: u32)
    requires
        state.wf(),
        first < state.visible_count,
        other < state.visible_count,
        page_start_of(first, state.page_size) == page_start_of(other, state.page_size),
        !state.pages.contains_key(page_start_of(first, state.page_size)),
        pending_position(state.pending, state.generation, page_start_of(first, state.page_size))
            is None,
    ensures
        ({
            let page_start = page_start_of(first, state.page_size);
            let items = placeholder_objects(
                page_start,
                shown_rows(state.page_size, state.visible_count, page_start),
                state.next_handle,
            );
            let (object, after) = state.item_lookup(first);
            let (again, later) = after.item_lookup(other);
            &&& object == Some(items[first - page_start])
            &&& again == Some(items[other - page_start])
            &&& after.events == state.events.push(
                EventView::ScheduleLoad { generation: state.generation, page_start },
            )
            &&& later.events == after.events
            &&& later.pending == after.pending
        }),
{
    let page_start = page_start_of(first, state.page_size);
    lemma_page_start_bounds(first, state.page_size);
    lemma_page_start_bounds(other, state.page_size);
    let after = state.item_lookup(first).1;
    let last = state.pending.len() as int;
    assert(after.pending[last].generation == state.generation);
    assert(after.pending[last].page_start == page_start);
    let j = choose|j: int|
        0 <= j < after.pending.len() && after.pending[j].generation == state.generation
            && after.pending[j].page_start == page_start;
    if j < last {
        assert(after.pending[j] == state.pending[j]);
    }
    assert(pending_position(after.pending, state.generation, page_start) == Some(last));
}

/// Lookups, loads and refreshes keep the model's counts, unless they clear
/// the model; configuring sets them, with the shown positions capped at
/// `u32::MAX`.
pub proof fn lemma_counts_are_kept(
    state: AddressListState,
    position: u32,
    generation: u64,
    page_start: u64,
    page_size: u32,
    result: Result<AddressPage, String>,
    total_count: u64,
    raw_total_count: u64,
)
    requires
        state.wf(),
    ensures
        state.item_lookup(position).1.total_count == state.total_count,
        state.item_lookup(position).1.visible_count == state.visible_count,
        state.loaded_at(position).1.total_count == state.total_count,
        state.without_pending(generation, page_start).total_count == state.total_count,
        ({
            let after = state.after_page_result(generation, page_start, page_size, result);
            (after.total_count == state.total_count && after.raw_total_count
                == state.raw_total_count && after.visible_count == state.visible_count)
                || after.is_cleared()
        }),
        ({
            let after = state.refreshed(generation, page_start, page_size, result).1;
            (after.total_count == state.total_count && after.raw_total_count
                == state.raw_total_count && after.visible_count == state.visible_count)
                || after.is_cleared()
        }),
        state.configured_with(generation, total_count, raw_total_count).total_count == total_count,
        state.configured_with(generation, total_count, raw_total_count).raw_total_count
            == raw_total_count,
        state.configured_with(generation, total_count, raw_total_count).visible_count
            == visible_for(total_count),
        state.cleared().is_cleared(),
{
    assert(state.cleared().pages.dom() =~= Set::<u64>::empty());
    let after = state.after_page_result(generation, page_start, page_size, result);
    if after.total_count != state.total_count || after.raw_total_count != state.raw_total_count
        || after.visible_count != state.visible_count {
        assert(after.pages.dom() =~= Set::<u64>::empty());
    }
    let refreshed = state.refreshed(generation, page_start, page_size, result).1;
    if refreshed.total_count != state.total_count || refreshed.raw_total_count
        != state.raw_total_count || refreshed.visible_count != state.visible_count {
        assert(refreshed.pages.dom() =~= Set::<u64>::empty());
    }
}

/// A refresh step of a cached page that yields records keeps the model
/// configured with the same cached pages; one that yields none clears it.
proof fn lemma_refresh_step_keeps_pages(
    state: AddressListState,
    generation: u64,
    page_start: u64,
    page_size: u32,
    result: Result<AddressPage, String>,
)
    requires
        state.configured,
        state.pages.contains_key(page_start),
    ensures
        ({
            let (records, next) = state.refreshed(generation, page_start, page_size, result);
            match records {
                Some(_) => next.configured && next.pages.dom() == state.pages.dom(),
                None => next.is_cleared(),
            }
        }),
{
    let (records, next) = state.refreshed(generation, page_start, page_size, result);
    match records {
        Some(_) => {
            if let Ok(page) = result {
                if let Ok(rows) = state.validated(generation, page_start, page_size, page) {
                    let updated = state.updated_in_place(page_start, rows).1;
                    assert(updated.pages.dom() =~= state.pages.dom());
                    let bumped = AddressListState {
                        next_handle: handle_after(updated.next_handle, rows.len()),
                        ..updated
                    };
                    assert(bumped.victim(page_start) is None);
                }
            }
            assert(next.pages.dom() =~= state.pages.dom());
        },
        None => {
            assert(next.pages.dom() =~= Set::<u64>::empty());
        },
    }
}

/// A refresh of a configured model asks the loader for every requested page
/// that is cached, in the order requested: a page that is not cached is
/// passed over and never stops the pages after it. Only an answer that
/// clears the model ends the refresh early. This holds whenever the loader
/// answered every load it was asked for.
pub proof fn lemma_refresh_asks_for_every_cached_page(
    state: AddressListState,
    generation: u64,
    page_size: u32,
    starts: Seq<u64>,
    answers: Seq<Result<AddressPage, String>>,
)
    requires
        state.configured,
        state.refresh_run(generation, page_size, starts, answers).2.len() <= answers.len(),
    ensures
        ({
            let (records, after, asked) = state.refresh_run(generation, page_size, starts, answers);
            !after.is_cleared() ==> forall|k: int|
                0 <= k < starts.len() && state.pages.contains_key(starts[k]) ==> asked.contains(
                    #[trigger] starts[k],
                )
        }),
        ({
            let (records, after, asked) = state.refresh_run(generation, page_size, starts, answers);
            forall|k: int| 0 <= k < asked.len() ==> starts.contains(#[trigger] asked[k])
                && state.pages.contains_key(asked[k])
        }),
    decreases starts.len(),
{
    if starts.len() > 0 {
        let rest = starts.drop_first();
        if !state.pages.contains_key(starts[0]) {
            lemma_refresh_asks_for_every_cached_page(state, generation, page_size, rest, answers);
            assert(state.refresh_run(generation, page_size, starts, answers) == state.refresh_run(
                generation,
                page_size,
                rest,
                answers,
            ));
            let asked = state.refresh_run(generation, page_size, starts, answers).2;
            assert forall|k: int|
                0 <= k < starts.len() && state.pages.contains_key(starts[k]) && !state.refresh_run(
                    generation,
                    page_size,
                    starts,
                    answers,
                ).1.is_cleared() implies asked.contains(#[trigger] starts[k]) by {
                assert(starts[k] == rest[k - 1]);
            }
            assert forall|k: int| 0 <= k < asked.len() implies starts.contains(#[trigger] asked[k])
                && state.pages.contains_key(asked[k]) by {
                assert(rest.contains(asked[k]));
                let j = choose|j: int| 0 <= j < rest.len() && rest[j] == asked[k];
                assert(starts[j + 1] == asked[k]);
            }
        } else if answers.len() > 0 {
            lemma_refresh_step_keeps_pages(state, generation, starts[0], page_size, answers[0]);
            let (records, next) = state.refreshed(generation, starts[0], page_size, answers[0]);
            if records is Some {
                lemma_refresh_asks_for_every_cached_page(
                    next,
                    generation,
                    page_size,
                    rest,
                    answers.drop_first(),
                );
                let later = next.refresh_run(generation, page_size, rest, answers.drop_first()).2;
                let asked = state.refresh_run(generation, page_size, starts, answers).2;
                assert(asked == seq![starts[0]] + later);
                assert forall|k: int|
                    0 <= k < starts.len() && state.pages.contains_key(starts[k]) && !state.refresh_run(
                        generation,
                        page_size,
                        starts,
                        answers,
                    ).1.is_cleared() implies asked.contains(#[trigger] starts[k]) by {
                    if k == 0 {
                        assert(asked[0] == starts[0]);
                    } else {
                        assert(starts[k] == rest[k - 1]);
                        assert(next.pages.contains_key(rest[k - 1]));
                        let j = choose|j: int| 0 <= j < later.len() && later[j] == starts[k];
                        assert(asked[j + 1] == starts[k]);
                    }
                }
                assert forall|k: int| 0 <= k < asked.len() implies starts.contains(
                    #[trigger] asked[k],
                ) && state.pages.contains_key(asked[k]) by {
                    if k == 0 {
                        assert(starts[0] == asked[0]);
                    } else {
                        assert(asked[k] == later[k - 1]);
                        let j = choose|j: int| 0 <= j < rest.len() && rest[j] == later[k - 1];
                        assert(starts[j + 1] == asked[k]);
                    }
                }
            } else {
                let asked = state.refresh_run(generation, page_size, starts, answers).2;
                assert(asked =~= seq![starts[0]]);
                assert(starts[0] == asked[0]);
            }
        }
    }
}

/// Storing a page below the shown count tells the list view, first of all,
/// that the shown rows of that page changed: from `page_start`, as many rows
/// as the page shows (a whole page, or the rest of the list).
pub proof fn lemma_stored_page_is_announced(
    state: AddressListState,
    page_start: u64,
    objects: Seq<RowObject<AddressRowView>>,
)
    requires
        state.wf(),
        page_start < state.visible_count,
    ensures
        ({
            let after = state.with_page(page_start, objects);
            let count = if state.page_size < state.visible_count - page_start {
                state.page_size as int
            } else {
                state.visible_count - page_start
            };
            &&& after.events.len() > state.events.len()
            &&& state.events.is_prefix_of(after.events)
            &&& after.events[state.events.len() as int] == EventView::ItemsChanged {
                position: page_start as u32,
                removed: count as u32,
                added: count as u32,
            }
        }),
{
    let after = state.with_page(page_start, objects);
    assert(after.events.subrange(0, state.events.len() as int) =~= state.events);
}

/// A page that the model accepts is announced: the first event that its
/// load adds says that the shown rows of that page changed.
pub proof fn lemma_loaded_page_is_announced(
    state: AddressListState,
    generation: u64,
    page_start: u64,
    page: AddressPage,
)
    requires
        state.wf(),
        page_start < state.visible_count,
        state.validated(generation, page_start, state.page_size, page) is Ok,
    ensures
        ({
            let after = state.after_page_result(generation, page_start, state.page_size, Ok(page));
            let count = if state.page_size < state.visible_count - page_start {
                state.page_size as int
            } else {
                state.visible_count - page_start
            };
            &&& after.events.len() > state.events.len()
            &&& after.events[state.events.len() as int] == EventView::ItemsChanged {
                position: page_start as u32,
                removed: count as u32,
                added: count as u32,
            }
        }),
{
    let after = state.after_page_result(generation, page_start, state.page_size, Ok(page));
    let rows = page.rows@;
    let bumped = AddressListState { next_handle: handle_after(state.next_handle, rows.len()), ..state };
    lemma_stored_page_is_announced(bumped, page_start, loaded_objects(page_start, rows, state.next_handle));
}

} // verus!
