//! The shapes of what the storefront's API answers, as far as the library
//! reads them.

pub mod items;
pub mod wish_list_name_items;
