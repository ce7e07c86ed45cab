//! One item of the storefront. Where the API answers with free-form JSON
//! the library holds nothing, or the JSON as text.

use vstd::prelude::*;

verus! {

#[derive(Default, Debug, Clone, PartialEq, Eq)]
pub struct ItemApiResponse {
    pub description: String,
    pub id: i64,
    pub is_adult: bool,
    pub is_buyee_possible: bool,
    pub is_end_of_sale: bool,
    pub is_placeholder: bool,
    pub is_sold_out: bool,
    pub name: String,
    pub price: String,
    pub purchase_limit: Option<i64>,
    pub shipping_info: String,
    pub small_stock: Option<i64>,
    pub url: String,
    pub wish_list_url: String,
    pub wish_lists_count: i64,
    pub wished: bool,
    pub category: Category,
    pub embeds: Vec<String>,
    pub images: Vec<Image>,
    pub share: Share,
    pub shop: Shop,
    pub sound: Option<Sound>,
    pub tags: Vec<Tag>,
    pub tag_banners: Vec<TagBanner>,
    pub tag_combination: Option<TagCombination>,
    pub variations: Vec<Variation>,
}

#[derive(Default, Debug, Clone, PartialEq, Eq)]
pub struct Category {
    pub id: i64,
    pub name: String,
    pub parent: Parent,
    pub url: String,
}

#[derive(Default, Debug, Clone, PartialEq, Eq)]
pub struct Parent {
    pub name: String,
    pub url: String,
}

/// An image of an item. The caption is held as the text of its JSON.
#[derive(Default, Debug, Clone, PartialEq, Eq)]
pub struct Image {
    pub caption: String,
    pub original: String,
    pub resized: String,
}

#[derive(Default, Debug, Clone, PartialEq, Eq)]
pub struct Share {
    pub hashtags: Vec<String>,
    pub text: String,
}

#[derive(Default, Debug, Clone, PartialEq, Eq)]
pub struct Shop {
    pub name: String,
    pub subdomain: String,
    pub thumbnail_url: String,
    pub url: String,
    pub verified: bool,
}

#[derive(Default, Debug, Clone, PartialEq, Eq)]
pub struct Sound {
    pub full_url: String,
    pub short_url: String,
}

#[derive(Default, Debug, Clone, PartialEq, Eq)]
pub struct Tag {
    pub name: String,
    pub url: String,
}

#[derive(Default, Debug, Clone, PartialEq, Eq)]
pub struct TagBanner {
    pub image_url: Option<String>,
    pub name: String,
    pub url: String,
}

#[derive(Default, Debug, Clone, PartialEq, Eq)]
pub struct TagCombination {
    pub category: String,
    pub tag: String,
    pub url: String,
}

/// One variation of an item, without its price.
#[derive(Default, Debug, Clone, PartialEq, Eq)]
pub struct Variation {
    pub buyee_html: Option<String>,
    pub downloadable: Option<Downloadable>,
    pub has_download_code: bool,
    pub id: i64,
    pub is_anshin_booth_pack: bool,
    pub is_empty_allocatable_stock_with_preorder: bool,
    pub is_empty_stock: bool,
    pub is_factory_item: bool,
    pub is_mailbin: bool,
    pub is_waiting_on_arrival: bool,
    pub name: Option<String>,
    pub small_stock: Option<i64>,
    pub status: String,
    pub type_field: String,
}

/// The files of a variation that are no music.
#[derive(Default, Debug, Clone, PartialEq, Eq)]
pub struct Downloadable {
    pub no_musics: Vec<NoMusic>,
}

#[derive(Default, Debug, Clone, PartialEq, Eq)]
pub struct NoMusic {
    pub file_name: String,
    pub file_extension: String,
    pub file_size: String,
    pub name: String,
    pub url: String,
}

} // verus!
