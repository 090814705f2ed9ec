# ce_gtk

The view models, paging rules and text handling of the GTK front end of a
memory scanner, written in Verus with their contracts proved.

- `src/page_cache.rs`: a bounded cache of pages of row objects that evicts the
  least recently used page.
- `src/address_list_model.rs`, `src/scan_result_model.rs`: the address list and
  the scan results as virtual list models. Each shows up to `u32::MAX`
  positions of a larger total, hands out placeholder rows for pages that are
  being loaded, validates the pages that the engine returns, and reports what
  its owner has to do (notify the view, schedule a load, pass on an issue,
  update a row in place) as a queue of events.
- `src/address_list_laws.rs`, `src/scan_result_laws.rs`: what holds across the
  models' operations, as proof functions.
- `src/memory_view.rs`: the address field and the hex dump of the memory viewer.
- `src/scan_input.rs`, `src/scan_options.rs`: the numbers typed into the scan
  options, and which options the scan panel offers for a value type.
- `src/row_text.rs`, `src/address_row.rs`: the texts of list rows, what an
  address row shows of its record and its scripts' trust, which of its
  controls can be used, and the summary above the address list.
- `src/script_review.rs`: the read-only script review: its capped requests
  (64 summaries, 64 KiB of payload), its pagers and its labels.
- `src/scan_status.rs`: the scan loop, from one polled status to the next
  step of the scan panel.
- `src/lua_console.rs`: the bounded command history and transcript of the Lua
  console.
- `src/process_list.rs`: what the process chooser shows, and which search
  answer it shows.
- `src/text.rs`, `src/paging.rs`: trimming, digits, decimal text and page
  arithmetic.

`app/` holds the GTK program around the library. Its main window reaches
only the process chooser, because the engine bridge linked here offers the
version and the process list alone. The list-model adapters that carry out
the models' events, the memory viewer and the Lua console dialog stand
ready but are not reached from the window; the scan panel, the address
table, the script review and table loading and saving are not there, as
their engine calls are not part of the bridge. `tests/` exercises the
library.
