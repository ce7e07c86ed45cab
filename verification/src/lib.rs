//! Persisted key/value cache with hit/miss statistics, and translation of
//! text that leaves embedded URLs untouched.

pub mod api_structs;
pub mod cache;
pub mod cache_laws;
pub mod item;
pub mod item_metadata;
pub mod item_row;
pub mod mapping;
pub mod normalize;
pub mod recursion;
pub mod sheet;
pub mod store;
pub mod text;
pub mod translate;
pub mod translation;
pub mod translator;
pub mod translator_laws;
pub mod url;
pub mod web;
pub mod wishlist;
