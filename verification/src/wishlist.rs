//! The pages of a wishlist: where they are found, and which items they
//! name.

use crate::api_structs::wish_list_name_items::WishListNameItemsResponse;
use crate::text::{decimal, decimal_of};
use vstd::prelude::*;
use vstd::string::StringExecFns;

verus! {

/// The address of every page of the wishlist, without the number of the
/// page.
pub open spec fn page_address() -> Seq<char> {
    "https://accounts.booth.pm/wish_list_name_items.json?page="@
}

/// The address of page `page` of the wishlist.
pub open spec fn page_url(page: nat) -> Seq<char> {
    page_address() + decimal(page)
}

/// The address of page `page` of the wishlist.
pub fn wishlist_page_url(page: u32) -> (url: String)
    ensures
        url@ == page_url(page as nat),
{
    let mut url = String::from_str("https://accounts.booth.pm/wish_list_name_items.json?page=");
    let number = decimal_of(page);
    url.append(number.as_str());
    url
}

/// The addresses of the pages 1 to `last_page` of the wishlist, in order.
pub fn wishlist_page_urls(last_page: u32) -> (urls: Vec<String>)
    ensures
        urls@.len() == last_page,
        forall|i: int| 0 <= i < last_page ==> (#[trigger] urls@[i])@ == page_url((i + 1) as nat),
{
    let mut urls: Vec<String> = Vec::new();
    let mut page: u32 = 0;
    while page < last_page
        invariant
            page <= last_page,
            urls@.len() == page,
            forall|i: int| 0 <= i < page ==> (#[trigger] urls@[i])@ == page_url((i + 1) as nat),
        decreases last_page - page,
    {
        page += 1;
        urls.push(wishlist_page_url(page));
    }
    urls
}

/// Whether every item of `page` has a number that fits 32 bits.
pub open spec fn numbers_fit(page: WishListNameItemsResponse) -> bool {
    forall|i: int|
        0 <= i < page.items@.len() ==> 0 <= (#[trigger] page.items@[i]).tracking_data.product_id
            <= u32::MAX
}

/// The numbers of the items of a wishlist page, in the order of the page.
pub fn get_all_item_numbers_on_page(page: &WishListNameItemsResponse) -> (numbers: Vec<u32>)
    requires
        numbers_fit(*page),
    ensures
        numbers@.len() == page.items@.len(),
        forall|i: int|
            0 <= i < numbers@.len() ==> #[trigger] numbers@[i]
                == page.items@[i].tracking_data.product_id,
{
    let mut numbers: Vec<u32> = Vec::new();
    let mut i: usize = 0;
    while i < page.items.len()
        invariant
            i <= page.items.len(),
            numbers_fit(*page),
            numbers@.len() == i,
            forall|j: int|
                0 <= j < i ==> #[trigger] numbers@[j] == page.items@[j].tracking_data.product_id,
        decreases page.items.len() - i,
    {
        let id: i64 = page.items[i].tracking_data.product_id;
        assert(0 <= page.items@[i as int].tracking_data.product_id <= u32::MAX);
        numbers.push(id as u32);
        i += 1;
    }
    numbers
}

/// Whether every item of `page` has a number that fits 32 bits.
pub fn item_numbers_fit(page: &WishListNameItemsResponse) -> (fit: bool)
    ensures
        fit == numbers_fit(*page),
{
    let mut i: usize = 0;
    while i < page.items.len()
        invariant
            i <= page.items.len(),
            forall|j: int|
                0 <= j < i ==> 0 <= (#[trigger] page.items@[j]).tracking_data.product_id
                    <= u32::MAX,
        decreases page.items.len() - i,
    {
        let id: i64 = page.items[i].tracking_data.product_id;
        if id < 0 || id > 0xFFFF_FFFF {
            return false;
        }
        i += 1;
    }
    true
}

} // verus!
