use booth_archiver::api_structs::items::{
    Category, Downloadable, Image, ItemApiResponse, NoMusic, Parent, Shop, Tag, Variation,
};
use booth_archiver::api_structs::wish_list_name_items::{
    Item, TrackingData, WishListNameItemsResponse,
};
use booth_archiver::item::{
    count_of, download_links, find_char, image_urls, is_vrchat, one_space, price_parts, tag_names,
    tagged, ItemError,
};
use booth_archiver::item_metadata::{ItemMetadata, NameWithTranslation, NameWithUrl, NumberWithUnit};
use booth_archiver::item_row::ItemRow;
use booth_archiver::sheet::{
    filtered_up_to, header_cells, or_untranslated, row_cells, row_number, Cell, Headers, COLUMNS,
};
use booth_archiver::text::{chars_of, decimal_of, digit_of, join, string_of};
use booth_archiver::web::{cookie_header, USER_AGENT};
use booth_archiver::wishlist::{
    get_all_item_numbers_on_page, item_numbers_fit, wishlist_page_url, wishlist_page_urls,
};

fn s(text: &str) -> String {
    text.to_string()
}

fn tag(name: &str) -> Tag {
    Tag { name: s(name), url: format!("https://booth.pm/tags/{}", name) }
}

fn file(url: &str) -> NoMusic {
    NoMusic { url: s(url), ..NoMusic::default() }
}

fn sample() -> ItemApiResponse {
    ItemApiResponse {
        description: s("A description\nwith two lines"),
        id: 4_321_000,
        is_adult: true,
        name: s("  Avatar 3D  "),
        price: s("1,500 JPY"),
        url: s("https://booth.pm/items/4321000"),
        wish_lists_count: 77,
        category: Category {
            id: 208,
            name: s("3D Characters"),
            parent: Parent { name: s("3D Models"), url: s("https://booth.pm/browse/3D") },
            url: s("https://booth.pm/browse/3D%20Characters"),
        },
        images: vec![
            Image { caption: s("null"), original: s("https://img/1.png"), resized: s("r1") },
            Image { caption: s("\"front\""), original: s("https://img/2.png"), resized: s("r2") },
        ],
        shop: Shop {
            name: s("Some Shop"),
            url: s("https://some.booth.pm/"),
            ..Shop::default()
        },
        tags: vec![tag("3D"), tag("VRChat"), tag("avatar")],
        variations: vec![
            Variation { downloadable: None, ..Variation::default() },
            Variation {
                downloadable: Some(Downloadable {
                    no_musics: vec![file("https://dl/a"), file("https://dl/b")],
                }),
                ..Variation::default()
            },
            Variation {
                downloadable: Some(Downloadable { no_musics: vec![] }),
                ..Variation::default()
            },
            Variation {
                downloadable: Some(Downloadable { no_musics: vec![file("https://dl/c")] }),
                ..Variation::default()
            },
        ],
        ..ItemApiResponse::default()
    }
}

#[test]
fn decimal_numerals() {
    assert_eq!(decimal_of(0), "0");
    assert_eq!(decimal_of(7), "7");
    assert_eq!(decimal_of(10), "10");
    assert_eq!(decimal_of(1905), "1905");
    assert_eq!(decimal_of(u32::MAX), "4294967295");
    for n in [1u32, 9, 11, 99, 100, 101, 12345, 1_000_000, 999_999_999] {
        assert_eq!(decimal_of(n), n.to_string());
    }
    assert_eq!(digit_of(0), '0');
    assert_eq!(digit_of(9), '9');
}

#[test]
fn joining() {
    assert_eq!(join(&vec![], ", "), "");
    assert_eq!(join(&vec![s("a")], ", "), "a");
    assert_eq!(join(&vec![s("a"), s("b"), s("")], ", "), "a, b, ");
    assert_eq!(join(&vec![s(""), s("")], "\n"), "\n");
    let parts = vec![s("x"), s("日本"), s("z")];
    assert_eq!(join(&parts, "\n"), parts.join("\n"));
}

#[test]
fn chars_and_back() {
    let text = "aé日\u{1F600}\t";
    let chars = chars_of(text);
    assert_eq!(chars, text.chars().collect::<Vec<char>>());
    assert_eq!(string_of(&chars), text);
    assert_eq!(chars_of("").len(), 0);
}

#[test]
fn page_urls() {
    assert_eq!(
        wishlist_page_url(12),
        "https://accounts.booth.pm/wish_list_name_items.json?page=12"
    );
    assert!(wishlist_page_urls(0).is_empty());
    let urls = wishlist_page_urls(3);
    assert_eq!(
        urls,
        vec![
            s("https://accounts.booth.pm/wish_list_name_items.json?page=1"),
            s("https://accounts.booth.pm/wish_list_name_items.json?page=2"),
            s("https://accounts.booth.pm/wish_list_name_items.json?page=3"),
        ]
    );
}

#[test]
fn item_numbers_of_a_page() {
    let item = |id: i64| Item {
        tracking_data: TrackingData { product_id: id, ..TrackingData::default() },
        ..Item::default()
    };
    let page = WishListNameItemsResponse {
        items: vec![item(5), item(0), item(4_294_967_295)],
        ..WishListNameItemsResponse::default()
    };
    assert!(item_numbers_fit(&page));
    assert_eq!(get_all_item_numbers_on_page(&page), vec![5, 0, 4_294_967_295]);
    let empty = WishListNameItemsResponse::default();
    assert!(item_numbers_fit(&empty));
    assert!(get_all_item_numbers_on_page(&empty).is_empty());
    for bad in [-1, 4_294_967_296, i64::MAX, i64::MIN] {
        let page = WishListNameItemsResponse {
            items: vec![item(1), item(bad)],
            ..WishListNameItemsResponse::default()
        };
        assert!(!item_numbers_fit(&page));
    }
}

#[test]
fn parts_of_a_price() {
    assert_eq!(price_parts("1,500 JPY"), Some((s("1500"), s("JPY"))));
    assert_eq!(price_parts("0 JPY"), Some((s("0"), s("JPY"))));
    assert_eq!(price_parts("1,234,567.5 US dollars"), Some((s("1234567.5"), s("US dollars"))));
    assert_eq!(price_parts(" JPY"), Some((s(""), s("JPY"))));
    assert_eq!(price_parts("12 "), Some((s("12"), s(""))));
    assert_eq!(price_parts("12 a,b"), Some((s("12"), s("a,b"))));
    assert_eq!(price_parts("1500JPY"), None);
    assert_eq!(price_parts(""), None);
    assert!(one_space("1,500 JPY"));
    assert!(!one_space("1 500 JPY"));
    assert!(!one_space("1500"));
    assert!(one_space(" "));
}

#[test]
fn finding_a_char() {
    let chars = chars_of("a,b,c");
    assert_eq!(find_char(&chars, ',', 0), 1);
    assert_eq!(find_char(&chars, ',', 2), 3);
    assert_eq!(find_char(&chars, ',', 4), 5);
    assert_eq!(find_char(&chars, 'x', 0), 5);
    assert_eq!(find_char(&chars, 'a', 5), 5);
}

#[test]
fn counts() {
    assert_eq!(count_of(0), Some(0));
    assert_eq!(count_of(4_294_967_295), Some(u32::MAX));
    assert_eq!(count_of(4_294_967_296), None);
    assert_eq!(count_of(-1), None);
}

#[test]
fn tags_and_links() {
    let value = sample();
    assert_eq!(tag_names(&value.tags), vec![s("3D"), s("VRChat"), s("avatar")]);
    assert!(is_vrchat(&value.tags));
    assert!(is_vrchat(&vec![tag("vrCHAT")]));
    assert!(!is_vrchat(&vec![tag("vr chat"), tag("VRChat ")]));
    assert!(!is_vrchat(&vec![]));
    assert!(tagged(&value.tags, "VRChat"));
    assert!(!tagged(&value.tags, "vrchat"));
    assert!(!tagged(&vec![], "VRChat"));
    assert_eq!(
        download_links(&value.variations),
        vec![s("https://dl/a"), s("https://dl/b"), s("https://dl/c")]
    );
    assert!(download_links(&vec![]).is_empty());
    assert_eq!(image_urls(&value.images), vec![s("https://img/1.png"), s("https://img/2.png")]);
}

#[test]
fn row_of_an_item() {
    let row = ItemRow::from(sample()).unwrap();
    assert_eq!(
        row,
        ItemRow {
            item_name: s("  Avatar 3D  "),
            item_name_translated: None,
            item_link: s("https://booth.pm/items/4321000"),
            author_name: s("Some Shop"),
            author_name_translated: None,
            author_link: s("https://some.booth.pm/"),
            primary_category: s("3D Models"),
            secondary_category: s("3D Characters"),
            vrchat: true,
            adult: true,
            tags: vec![s("3D"), s("VRChat"), s("avatar")],
            price: s("1500"),
            currency: s("JPY"),
            hearts: 77,
            image_urls: vec![s("https://img/1.png"), s("https://img/2.png")],
            download_links: vec![s("https://dl/a"), s("https://dl/b"), s("https://dl/c")],
            markdown: s("A description\nwith two lines"),
            markdown_translated: None,
        }
    );
}

#[test]
fn row_errors() {
    let mut value = sample();
    value.price = s("free");
    value.wish_lists_count = -1;
    assert_eq!(ItemRow::from(value), Err(ItemError::Price));
    let mut value = sample();
    value.wish_lists_count = 1 << 32;
    assert_eq!(ItemRow::from(value), Err(ItemError::Hearts));
}

#[test]
fn metadata_of_an_item() {
    let m = ItemMetadata::from(sample()).unwrap();
    assert_eq!(m.item.id, 4_321_000);
    assert_eq!(m.item.name, NameWithUrl::new(
        NameWithTranslation::from(s("Avatar 3D")),
        s("https://booth.pm/items/4321000"),
    ));
    assert_eq!(m.author.name.name, "Some Shop");
    assert_eq!(m.author.name.name_translated, "Some Shop");
    assert_eq!(m.author.url, "https://some.booth.pm/");
    assert_eq!(m.hearts, 77);
    assert_eq!(m.price, NumberWithUnit::new(s("1500"), s("JPY")));
    assert_eq!(m.category.category.name.name, "3D Models");
    assert_eq!(m.category.category.url, "https://booth.pm/browse/3D");
    assert_eq!(m.category.subcategory.name.name, "3D Characters");
    assert_eq!(m.category.subcategory.url, "https://booth.pm/browse/3D%20Characters");
    assert_eq!(m.images.len(), 2);
    assert_eq!(m.images[0].name.name, "null");
    assert_eq!(m.images[1].name.name_translated, "\"front\"");
    assert_eq!(m.images[1].url, "https://img/2.png");
    assert_eq!(m.downloads.len(), 3);
    assert_eq!(m.downloads[2].name.url, "https://dl/c");
    assert_eq!(m.downloads[2].name.name, NameWithTranslation::default());
    assert_eq!(m.downloads[2].price, NumberWithUnit::default());
    assert_eq!(m.downloads[2].variation, None);
    assert_eq!(m.downloads[2].format, None);
    assert_eq!(m.downloads[2].size, None);
    assert!(m.badges.vrchat);
    assert!(m.badges.adult);
    assert_eq!(m.description, "A description\nwith two lines");
}

#[test]
fn metadata_wants_the_exact_tag() {
    let mut value = sample();
    value.tags = vec![tag("vrchat")];
    let m = ItemMetadata::from(value).unwrap();
    assert!(!m.badges.vrchat);
}

#[test]
fn metadata_errors_in_order() {
    let mut value = sample();
    value.id = -5;
    value.wish_lists_count = -5;
    value.price = s("free");
    assert_eq!(ItemMetadata::from(value.clone()), Err(ItemError::Id));
    value.id = 5;
    assert_eq!(ItemMetadata::from(value.clone()), Err(ItemError::Hearts));
    value.wish_lists_count = 5;
    assert_eq!(ItemMetadata::from(value.clone()), Err(ItemError::Price));
    value.price = s("1 500 JPY");
    assert_eq!(ItemMetadata::from(value.clone()), Err(ItemError::Price));
    value.price = s("500 JPY");
    assert!(ItemMetadata::from(value).is_ok());
}

#[test]
fn empty_metadata() {
    assert_eq!(ItemMetadata::new(), ItemMetadata::default());
}

#[test]
fn columns_and_titles() {
    let all = [
        (Headers::ItemName, 0, "Item Name"),
        (Headers::ItemNameTranslated, 1, "Item Name Translated"),
        (Headers::ItemLink, 2, "Item Link"),
        (Headers::AuthorName, 3, "Author Name"),
        (Headers::AuthorNameTranslated, 4, "Author Name Translated"),
        (Headers::AuthorLink, 5, "Author Link"),
        (Headers::PrimaryCategory, 6, "Primary Category"),
        (Headers::SecondaryCategory, 7, "Secondary Category"),
        (Headers::VRChat, 8, "VRChat"),
        (Headers::Adult, 9, "Adult"),
        (Headers::Tags, 10, "Tags"),
        (Headers::Price, 11, "Price"),
        (Headers::Currency, 12, "Currency"),
        (Headers::Hearts, 13, "Hearts"),
        (Headers::ImagesNumber, 14, "Images Number"),
        (Headers::ImagesURLs, 15, "Images URLs"),
        (Headers::DownloadNumber, 16, "Download Number"),
        (Headers::DownloadsLinks, 17, "Downloads Links"),
        (Headers::Markdown, 18, "Markdown"),
        (Headers::MarkdownTranslated, 19, "Markdown Translated"),
    ];
    let cells = header_cells();
    assert_eq!(cells.len(), COLUMNS as usize);
    for (header, column, title) in all {
        assert_eq!(header.column(), column);
        assert_eq!(header.title(), title);
        assert_eq!(cells[column as usize], title);
    }
    assert_eq!(filtered_up_to(), 18);
    assert_eq!(row_number(0), 1);
    assert_eq!(row_number(41), 42);
}

fn text_of(cell: &Cell<String>) -> String {
    match cell {
        Cell::Text(t) => format!("text:{}", t),
        Cell::Link(t) => format!("link:{}", t),
        Cell::Flag(b) => format!("flag:{}", b),
        Cell::Count(n) => format!("count:{}", n),
        Cell::Amount(t) => format!("amount:{}", t),
    }
}

#[test]
fn cells_of_a_row() {
    let mut row = ItemRow::from(sample()).unwrap();
    row.author_name_translated = Some(s("Ein Laden"));
    let cells: Vec<String> = row_cells(&row).iter().map(text_of).collect();
    assert_eq!(
        cells,
        vec![
            s("text:  Avatar 3D  "),
            s("text:  Avatar 3D  "),
            s("link:https://booth.pm/items/4321000"),
            s("text:Some Shop"),
            s("text:Ein Laden"),
            s("link:https://some.booth.pm/"),
            s("text:3D Models"),
            s("text:3D Characters"),
            s("flag:true"),
            s("flag:true"),
            s("text:3D, VRChat, avatar"),
            s("amount:1500"),
            s("text:JPY"),
            s("count:77"),
            s("count:2"),
            s("text:https://img/1.png\nhttps://img/2.png"),
            s("count:3"),
            s("text:https://dl/a\nhttps://dl/b\nhttps://dl/c"),
            s("text:A description\nwith two lines"),
            s("text:A description\nwith two lines"),
        ]
    );
}

#[test]
fn untranslated_text_stands_for_itself() {
    assert_eq!(or_untranslated(&None, &s("x")), "x");
    assert_eq!(or_untranslated(&Some(s("y")), &s("x")), "y");
    assert_eq!(or_untranslated(&Some(s("")), &s("x")), "");
}

#[test]
fn cookie() {
    assert_eq!(
        cookie_header("abc123", true),
        "_plaza_session_nktz7u=abc123; Secure; adult=t; Secure"
    );
    assert_eq!(cookie_header("", false), "_plaza_session_nktz7u=; Secure; adult=f; Secure");
    assert_eq!(
        USER_AGENT,
        format!(
            "{} {} {} {}",
            "Mozilla/5.0 (Windows NT 10.0; Win64; x64)",
            "AppleWebKit/537.36 (KHTML, like Gecko)",
            "Chrome/108.0.0.0",
            "Safari/537.36"
        )
    );
}

#[test]
fn blank_metadata_holds_nothing() {
    let m = ItemMetadata::new();
    assert_eq!(m.item.id, 0);
    assert_eq!(m.item.name.name.name, "");
    assert_eq!(m.item.name.url, "");
    assert_eq!(m.price.number, "");
    assert_eq!(m.price.unit, "");
    assert!(m.images.is_empty());
    assert!(m.downloads.is_empty());
    assert!(!m.badges.vrchat);
    assert!(!m.badges.adult);
}
