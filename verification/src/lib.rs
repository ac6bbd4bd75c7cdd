//! Verified core of a terminal reader for web novels: the job model and
//! scheduler, the library and its filters, reader pagination, plugin
//! configuration and the text rules they share.
use vstd::prelude::*;

pub mod add_book_dialog;
pub mod add_library_dialog;
pub mod backend_picker;
pub mod backends;
pub mod chapter_results;
pub mod chapters;
pub mod config_file;
pub mod cookie_store;
pub mod embed_dialog;
pub mod events;
pub mod filter_dialog;
pub mod job;
pub mod install_dialog;
pub mod jobs_page;
pub mod jump_dialog;
pub mod key_handler;
pub mod library;
pub mod library_page;
pub mod messenger;
pub mod models;
pub mod paths;
pub mod palette;
pub mod plugin_api;
pub mod plugin_config;
pub mod plugin_install;
pub mod reader;
pub mod reader_page;
pub mod scrapers;
pub mod session_picker;
pub mod settings;
pub mod settings_page;
pub mod template;
pub mod text;
pub mod urls;
pub mod worker;

verus! {

} // verus!
