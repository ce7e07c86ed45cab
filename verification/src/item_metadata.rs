//! What is known of one item, in nested form.

use crate::api_structs::items::ItemApiResponse;
use crate::item::{
    amount_of, count_of, download_links, fits_u32, has_one_space, has_tag, links_of, one_space,
    price_parts, tagged, unit_of, ItemError,
};
use crate::normalize::{trim, trimmed};
use crate::text::{chars_of, string_of, texts};
use vstd::prelude::*;

verus! {

#[derive(Debug, Default, Clone, PartialEq, Eq)]
pub struct ItemMetadata {
    pub item: ItemInfo,
    pub author: NameWithUrl,
    pub hearts: u32,
    pub price: NumberWithUnit,
    pub category: CategoryInfo,
    pub images: Vec<NameWithUrl>,
    pub downloads: Vec<DownloadInfo>,
    pub badges: Badges,
    pub description: String,
}

#[derive(Debug, Default, Clone, PartialEq, Eq)]
pub struct ItemInfo {
    pub name: NameWithUrl,
    pub id: u32,
}

#[derive(Debug, Default, Clone, PartialEq, Eq)]
pub struct CategoryInfo {
    pub category: NameWithUrl,
    pub subcategory: NameWithUrl,
}

#[derive(Debug, Default, Clone, PartialEq, Eq)]
pub struct DownloadInfo {
    pub name: NameWithUrl,
    pub price: NumberWithUnit,
    pub variation: Option<NameWithTranslation>,
    pub format: Option<String>,
    pub size: Option<NumberWithUnit>,
}

#[derive(Debug, Default, Clone, PartialEq, Eq)]
pub struct NameWithTranslation {
    pub name: String,
    pub name_translated: String,
}

#[derive(Debug, Default, Clone, PartialEq, Eq)]
pub struct NameWithUrl {
    pub name: NameWithTranslation,
    pub url: String,
}

#[derive(Debug, Default, Clone, PartialEq, Eq)]
pub struct Badges {
    pub vrchat: bool,
    pub adult: bool,
}

/// A number with its unit. The number is held as its text; an empty text
/// stands for zero.
#[derive(Debug, Default, Clone, PartialEq, Eq)]
pub struct NumberWithUnit {
    pub number: String,
    pub unit: String,
}

impl NameWithTranslation {
    /// Whether this is `name`, with itself as its translation.
    pub open spec fn is_untranslated(self, name: Seq<char>) -> bool {
        self.name@ == name && self.name_translated@ == name
    }

    /// A name that stands for its own translation until there is one.
    pub fn from(val: String) -> (name: Self)
        ensures
            name.is_untranslated(val@),
    {
        NameWithTranslation { name: val.clone(), name_translated: val }
    }
}

impl NameWithUrl {
    /// Whether this is `name`, untranslated, with the address `url`.
    pub open spec fn is_named(self, name: Seq<char>, url: Seq<char>) -> bool {
        self.name.is_untranslated(name) && self.url@ == url
    }

    pub fn new(name: NameWithTranslation, url: String) -> (named: Self)
        ensures
            named.name == name,
            named.url == url,
    {
        Self { name, url }
    }
}

impl NumberWithUnit {
    pub fn new(number: String, unit: String) -> (n: Self)
        ensures
            n.number == number,
            n.unit == unit,
    {
        Self { number, unit }
    }
}

impl DownloadInfo {
    /// Whether this is a download of which only the address `url` is known.
    pub open spec fn is_bare(self, url: Seq<char>) -> bool {
        &&& self.name.is_named(Seq::empty(), url)
        &&& self.price.number@.len() == 0
        &&& self.price.unit@.len() == 0
        &&& self.variation is None
        &&& self.format is None
        &&& self.size is None
    }
}

impl ItemMetadata {
    /// Whether nothing is in this metadata: every text is empty, every
    /// number zero, every list empty, and no badge is set.
    pub open spec fn is_blank(self) -> bool {
        &&& self.item.name.is_named(Seq::empty(), Seq::empty())
        &&& self.item.id == 0
        &&& self.author.is_named(Seq::empty(), Seq::empty())
        &&& self.hearts == 0
        &&& self.price.number@.len() == 0
        &&& self.price.unit@.len() == 0
        &&& self.category.category.is_named(Seq::empty(), Seq::empty())
        &&& self.category.subcategory.is_named(Seq::empty(), Seq::empty())
        &&& self.images@.len() == 0
        &&& self.downloads@.len() == 0
        &&& !self.badges.vrchat
        &&& !self.badges.adult
        &&& self.description@.len() == 0
    }

    /// Metadata with nothing in it.
    pub fn new() -> (m: Self)
        ensures
            m.is_blank(),
    {
        ItemMetadata {
            item: ItemInfo {
                name: NameWithUrl {
                    name: NameWithTranslation::from(String::new()),
                    url: String::new(),
                },
                id: 0,
            },
            author: NameWithUrl {
                name: NameWithTranslation::from(String::new()),
                url: String::new(),
            },
            hearts: 0,
            price: NumberWithUnit { number: String::new(), unit: String::new() },
            category: CategoryInfo {
                category: NameWithUrl {
                    name: NameWithTranslation::from(String::new()),
                    url: String::new(),
                },
                subcategory: NameWithUrl {
                    name: NameWithTranslation::from(String::new()),
                    url: String::new(),
                },
            },
            images: Vec::new(),
            downloads: Vec::new(),
            badges: Badges { vrchat: false, adult: false },
            description: String::new(),
        }
    }

    /// Whether `self` is the metadata of `value`, with nothing translated
    /// yet.
    pub open spec fn is_metadata_of(self, value: ItemApiResponse) -> bool {
        &&& self.item.name.is_named(trimmed(value.name@), value.url@)
        &&& self.item.id == value.id
        &&& self.author.is_named(value.shop.name@, value.shop.url@)
        &&& self.hearts == value.wish_lists_count
        &&& self.price.number@ == amount_of(value.price@)
        &&& self.price.unit@ == unit_of(value.price@)
        &&& self.category.category.is_named(value.category.parent.name@, value.category.parent.url@)
        &&& self.category.subcategory.is_named(value.category.name@, value.category.url@)
        &&& self.images@.len() == value.images@.len()
        &&& forall|i: int|
            0 <= i < self.images@.len() ==> (#[trigger] self.images@[i]).is_named(
                value.images@[i].caption@,
                value.images@[i].original@,
            )
        &&& self.downloads@.len() == links_of(value.variations@).len()
        &&& forall|i: int|
            0 <= i < self.downloads@.len() ==> (#[trigger] self.downloads@[i]).is_bare(
                links_of(value.variations@)[i],
            )
        &&& self.badges.vrchat == has_tag(value.tags@, "VRChat"@)
        &&& self.badges.adult == value.is_adult
        &&& self.description@ == value.description@
    }

    /// The metadata of an item. There is none where the item's number or
    /// the number of wishlists that hold it does not fit 32 bits, nor where
    /// the price is not an amount, one space, and a unit; the first of
    /// these that fails is named.
    pub fn from(value: ItemApiResponse) -> (m: Result<Self, ItemError>)
        ensures
            match m {
                Ok(m) => fits_u32(value.id) && fits_u32(value.wish_lists_count) && has_one_space(
                    value.price@,
                ) && m.is_metadata_of(value),
                Err(e) => if !fits_u32(value.id) {
                    e == ItemError::Id
                } else if !fits_u32(value.wish_lists_count) {
                    e == ItemError::Hearts
                } else {
                    e == ItemError::Price && !has_one_space(value.price@)
                },
            },
    {
        let id = match count_of(value.id) {
            Some(id) => id,
            None => {
                return Err(ItemError::Id);
            },
        };
        let hearts = match count_of(value.wish_lists_count) {
            Some(hearts) => hearts,
            None => {
                return Err(ItemError::Hearts);
            },
        };
        if !one_space(value.price.as_str()) {
            return Err(ItemError::Price);
        }
        let (number, unit) = match price_parts(value.price.as_str()) {
            Some(parts) => parts,
            None => {
                return Err(ItemError::Price);
            },
        };
        let name = string_of(&trim(&chars_of(value.name.as_str())));
        let vrchat = tagged(&value.tags, "VRChat");
        let links = download_links(&value.variations);
        let mut images: Vec<NameWithUrl> = Vec::new();
        let mut i: usize = 0;
        while i < value.images.len()
            invariant
                i <= value.images.len(),
                images@.len() == i,
                forall|j: int|
                    0 <= j < i ==> (#[trigger] images@[j]).is_named(
                        value.images@[j].caption@,
                        value.images@[j].original@,
                    ),
            decreases value.images.len() - i,
        {
            images.push(
                NameWithUrl {
                    name: NameWithTranslation::from(value.images[i].caption.clone()),
                    url: value.images[i].original.clone(),
                },
            );
            i += 1;
        }
        let mut downloads: Vec<DownloadInfo> = Vec::new();
        let mut k: usize = 0;
        while k < links.len()
            invariant
                k <= links.len(),
                downloads@.len() == k,
                forall|j: int|
                    0 <= j < k ==> (#[trigger] downloads@[j]).is_bare(texts(links@)[j]),
            decreases links.len() - k,
        {
            downloads.push(
                DownloadInfo {
                    name: NameWithUrl {
                        name: NameWithTranslation::from(String::new()),
                        url: links[k].clone(),
                    },
                    price: NumberWithUnit { number: String::new(), unit: String::new() },
                    variation: None,
                    format: None,
                    size: None,
                },
            );
            k += 1;
        }
        Ok(
            ItemMetadata {
                item: ItemInfo {
                    name: NameWithUrl { name: NameWithTranslation::from(name), url: value.url },
                    id,
                },
                author: NameWithUrl {
                    name: NameWithTranslation::from(value.shop.name),
                    url: value.shop.url,
                },
                hearts,
                price: NumberWithUnit { number, unit },
                category: CategoryInfo {
                    category: NameWithUrl {
                        name: NameWithTranslation::from(value.category.parent.name),
                        url: value.category.parent.url,
                    },
                    subcategory: NameWithUrl {
                        name: NameWithTranslation::from(value.category.name),
                        url: value.category.url,
                    },
                },
                images,
                downloads,
                badges: Badges { vrchat, adult: value.is_adult },
                description: value.description,
            },
        )
    }
}

} // verus!
