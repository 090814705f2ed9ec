//! View models, paging rules and text helpers of the GTK front end of the
//! memory scanner, with their contracts proved by Verus.
pub mod address_row;
pub mod bridge;
pub mod lua_console;
pub mod memory_view;
pub mod page_cache;
pub mod paging;
pub mod process_list;
pub mod row_text;
pub mod scan_input;
pub mod scan_options;
pub mod scan_status;
pub mod script_review;
pub mod text;
pub mod address_list_laws;
pub mod address_list_model;
pub mod scan_result_laws;
pub mod scan_result_model;
