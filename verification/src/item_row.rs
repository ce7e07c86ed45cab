//! One item as one row of the spreadsheet.

use crate::api_structs::items::ItemApiResponse;
use crate::item::{
    amount_of, count_of, download_links, fits_u32, has_unit, image_urls, is_vrchat, links_of,
    names_vrchat, originals_of, price_parts, tag_names, tag_names_of, unit_of, ItemError,
};
use crate::text::texts;
use vstd::prelude::*;

verus! {

/// One item as one row. The price is held as the text of its amount, with
/// its digits ungrouped.
#[derive(Clone, Default, Debug, PartialEq, Eq)]
pub struct ItemRow {
    pub item_name: String,
    pub item_name_translated: Option<String>,
    pub item_link: String,
    pub author_name: String,
    pub author_name_translated: Option<String>,
    pub author_link: String,
    pub primary_category: String,
    pub secondary_category: String,
    pub vrchat: bool,
    pub adult: bool,
    pub tags: Vec<String>,
    pub price: String,
    pub currency: String,
    pub hearts: u32,
    pub image_urls: Vec<String>,
    pub download_links: Vec<String>,
    pub markdown: String,
    pub markdown_translated: Option<String>,
}

impl ItemRow {
    /// Whether `self` is the row of `value`, with nothing translated yet.
    pub open spec fn is_row_of(self, value: ItemApiResponse) -> bool {
        &&& self.item_name@ == value.name@
        &&& self.item_name_translated is None
        &&& self.item_link@ == value.url@
        &&& self.author_name@ == value.shop.name@
        &&& self.author_name_translated is None
        &&& self.author_link@ == value.shop.url@
        &&& self.primary_category@ == value.category.parent.name@
        &&& self.secondary_category@ == value.category.name@
        &&& self.vrchat == names_vrchat(value.tags@)
        &&& self.adult == value.is_adult
        &&& texts(self.tags@) == tag_names_of(value.tags@)
        &&& self.price@ == amount_of(value.price@)
        &&& self.currency@ == unit_of(value.price@)
        &&& self.hearts == value.wish_lists_count
        &&& texts(self.image_urls@) == originals_of(value.images@)
        &&& texts(self.download_links@) == links_of(value.variations@)
        &&& self.markdown@ == value.description@
        &&& self.markdown_translated is None
    }

    /// The row of an item. An item whose price holds no space has none, nor
    /// has one that more wishlists hold than 32 bits count.
    pub fn from(value: ItemApiResponse) -> (row: Result<Self, ItemError>)
        ensures
            match row {
                Ok(row) => has_unit(value.price@) && fits_u32(value.wish_lists_count)
                    && row.is_row_of(value),
                Err(e) => if !has_unit(value.price@) {
                    e == ItemError::Price
                } else {
                    e == ItemError::Hearts && !fits_u32(value.wish_lists_count)
                },
            },
    {
        let vrchat = is_vrchat(&value.tags);
        let tags = tag_names(&value.tags);
        let (price, currency) = match price_parts(value.price.as_str()) {
            Some(parts) => parts,
            None => {
                return Err(ItemError::Price);
            },
        };
        let hearts = match count_of(value.wish_lists_count) {
            Some(hearts) => hearts,
            None => {
                return Err(ItemError::Hearts);
            },
        };
        let image_urls = image_urls(&value.images);
        let download_links = download_links(&value.variations);
        Ok(
            ItemRow {
                item_name: value.name,
                item_name_translated: None,
                item_link: value.url,
                author_name: value.shop.name,
                author_name_translated: None,
                author_link: value.shop.url,
                primary_category: value.category.parent.name,
                secondary_category: value.category.name,
                vrchat,
                adult: value.is_adult,
                tags,
                price,
                currency,
                hearts,
                image_urls,
                download_links,
                markdown: value.description,
                markdown_translated: None,
            },
        )
    }
}

} // verus!
