//! The scrapers: which plugin serves a URL, and what they keep on disk.
pub mod cookie_store;
pub mod services;
