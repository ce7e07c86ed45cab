//! The layout of the spreadsheet: which column holds what, and the cells of
//! one row.

use crate::item_row::ItemRow;
use crate::text::{join, joined, texts};
use vstd::prelude::*;
use vstd::string::StringExecFns;

verus! {

/// The columns of the sheet.
#[derive(Debug, Clone, Copy, PartialEq, Eq, Structural)]
pub enum Headers {
    ItemName,
    ItemNameTranslated,
    ItemLink,
    AuthorName,
    AuthorNameTranslated,
    AuthorLink,
    PrimaryCategory,
    SecondaryCategory,
    VRChat,
    Adult,
    Tags,
    Price,
    Currency,
    Hearts,
    ImagesNumber,
    ImagesURLs,
    DownloadNumber,
    DownloadsLinks,
    Markdown,
    MarkdownTranslated,
}

/// How many columns the sheet has.
pub const COLUMNS: u16 = 20;

/// What stands in one cell.
pub enum Cell<T> {
    /// A text.
    Text(T),
    /// A link to the address.
    Link(T),
    /// Yes or no.
    Flag(bool),
    /// A whole number.
    Count(u32),
    /// An amount, as the text of its number.
    Amount(T),
}

impl View for Cell<String> {
    type V = Cell<Seq<char>>;

    open spec fn view(&self) -> Cell<Seq<char>> {
        match *self {
            Cell::Text(text) => Cell::Text(text@),
            Cell::Link(url) => Cell::Link(url@),
            Cell::Flag(flag) => Cell::Flag(flag),
            Cell::Count(count) => Cell::Count(count),
            Cell::Amount(number) => Cell::Amount(number@),
        }
    }
}

impl Headers {
    /// The number of the column, from 0.
    pub open spec fn spec_column(self) -> u16 {
        match self {
            Headers::ItemName => 0,
            Headers::ItemNameTranslated => 1,
            Headers::ItemLink => 2,
            Headers::AuthorName => 3,
            Headers::AuthorNameTranslated => 4,
            Headers::AuthorLink => 5,
            Headers::PrimaryCategory => 6,
            Headers::SecondaryCategory => 7,
            Headers::VRChat => 8,
            Headers::Adult => 9,
            Headers::Tags => 10,
            Headers::Price => 11,
            Headers::Currency => 12,
            Headers::Hearts => 13,
            Headers::ImagesNumber => 14,
            Headers::ImagesURLs => 15,
            Headers::DownloadNumber => 16,
            Headers::DownloadsLinks => 17,
            Headers::Markdown => 18,
            Headers::MarkdownTranslated => 19,
        }
    }

    /// The title of the column.
    pub open spec fn spec_title(self) -> Seq<char> {
        match self {
            Headers::ItemName => "Item Name"@,
            Headers::ItemNameTranslated => "Item Name Translated"@,
            Headers::ItemLink => "Item Link"@,
            Headers::AuthorName => "Author Name"@,
            Headers::AuthorNameTranslated => "Author Name Translated"@,
            Headers::AuthorLink => "Author Link"@,
            Headers::PrimaryCategory => "Primary Category"@,
            Headers::SecondaryCategory => "Secondary Category"@,
            Headers::VRChat => "VRChat"@,
            Headers::Adult => "Adult"@,
            Headers::Tags => "Tags"@,
            Headers::Price => "Price"@,
            Headers::Currency => "Currency"@,
            Headers::Hearts => "Hearts"@,
            Headers::ImagesNumber => "Images Number"@,
            Headers::ImagesURLs => "Images URLs"@,
            Headers::DownloadNumber => "Download Number"@,
            Headers::DownloadsLinks => "Downloads Links"@,
            Headers::Markdown => "Markdown"@,
            Headers::MarkdownTranslated => "Markdown Translated"@,
        }
    }

    /// The number of the column, from 0.
    #[verifier::when_used_as_spec(spec_column)]
    pub fn column(self) -> (col: u16)
        ensures
            col == self.spec_column(),
            col < COLUMNS,
    {
        match self {
            Headers::ItemName => 0,
            Headers::ItemNameTranslated => 1,
            Headers::ItemLink => 2,
            Headers::AuthorName => 3,
            Headers::AuthorNameTranslated => 4,
            Headers::AuthorLink => 5,
            Headers::PrimaryCategory => 6,
            Headers::SecondaryCategory => 7,
            Headers::VRChat => 8,
            Headers::Adult => 9,
            Headers::Tags => 10,
            Headers::Price => 11,
            Headers::Currency => 12,
            Headers::Hearts => 13,
            Headers::ImagesNumber => 14,
            Headers::ImagesURLs => 15,
            Headers::DownloadNumber => 16,
            Headers::DownloadsLinks => 17,
            Headers::Markdown => 18,
            Headers::MarkdownTranslated => 19,
        }
    }

    /// The title of the column.
    pub fn title(self) -> (title: &'static str)
        ensures
            title@ == self.spec_title(),
    {
        match self {
            Headers::ItemName => "Item Name",
            Headers::ItemNameTranslated => "Item Name Translated",
            Headers::ItemLink => "Item Link",
            Headers::AuthorName => "Author Name",
            Headers::AuthorNameTranslated => "Author Name Translated",
            Headers::AuthorLink => "Author Link",
            Headers::PrimaryCategory => "Primary Category",
            Headers::SecondaryCategory => "Secondary Category",
            Headers::VRChat => "VRChat",
            Headers::Adult => "Adult",
            Headers::Tags => "Tags",
            Headers::Price => "Price",
            Headers::Currency => "Currency",
            Headers::Hearts => "Hearts",
            Headers::ImagesNumber => "Images Number",
            Headers::ImagesURLs => "Images URLs",
            Headers::DownloadNumber => "Download Number",
            Headers::DownloadsLinks => "Downloads Links",
            Headers::Markdown => "Markdown",
            Headers::MarkdownTranslated => "Markdown Translated",
        }
    }
}

/// The translation where there is one, and else the text itself.
pub open spec fn translated_or(translated: Option<String>, text: String) -> Seq<char> {
    match translated {
        Some(t) => t@,
        None => text@,
    }
}

/// What stands in the cell of `item` under `header`.
pub open spec fn cell_of(item: ItemRow, header: Headers) -> Cell<Seq<char>> {
    match header {
        Headers::ItemName => Cell::Text(item.item_name@),
        Headers::ItemNameTranslated => Cell::Text(
            translated_or(item.item_name_translated, item.item_name),
        ),
        Headers::ItemLink => Cell::Link(item.item_link@),
        Headers::AuthorName => Cell::Text(item.author_name@),
        Headers::AuthorNameTranslated => Cell::Text(
            translated_or(item.author_name_translated, item.author_name),
        ),
        Headers::AuthorLink => Cell::Link(item.author_link@),
        Headers::PrimaryCategory => Cell::Text(item.primary_category@),
        Headers::SecondaryCategory => Cell::Text(item.secondary_category@),
        Headers::VRChat => Cell::Flag(item.vrchat),
        Headers::Adult => Cell::Flag(item.adult),
        Headers::Tags => Cell::Text(joined(texts(item.tags@), ", "@)),
        Headers::Price => Cell::Amount(item.price@),
        Headers::Currency => Cell::Text(item.currency@),
        Headers::Hearts => Cell::Count(item.hearts),
        Headers::ImagesNumber => Cell::Count(item.image_urls@.len() as u32),
        Headers::ImagesURLs => Cell::Text(joined(texts(item.image_urls@), "\n"@)),
        Headers::DownloadNumber => Cell::Count(item.download_links@.len() as u32),
        Headers::DownloadsLinks => Cell::Text(joined(texts(item.download_links@), "\n"@)),
        Headers::Markdown => Cell::Text(item.markdown@),
        Headers::MarkdownTranslated => Cell::Text(
            translated_or(item.markdown_translated, item.markdown),
        ),
    }
}

/// The translation where there is one, and else the text itself.
pub fn or_untranslated(translated: &Option<String>, text: &String) -> (out: String)
    ensures
        out@ == translated_or(*translated, *text),
{
    match translated {
        Some(t) => t.clone(),
        None => text.clone(),
    }
}

/// The titles of the columns, in the order of the columns.
pub fn header_cells() -> (cells: Vec<String>)
    ensures
        cells@.len() == COLUMNS,
        forall|header: Headers|
            (#[trigger] cells@[header.spec_column() as int])@ == header.spec_title(),
{
    let mut cells: Vec<String> = Vec::new();
    cells.push(String::from_str(Headers::ItemName.title()));
    cells.push(String::from_str(Headers::ItemNameTranslated.title()));
    cells.push(String::from_str(Headers::ItemLink.title()));
    cells.push(String::from_str(Headers::AuthorName.title()));
    cells.push(String::from_str(Headers::AuthorNameTranslated.title()));
    cells.push(String::from_str(Headers::AuthorLink.title()));
    cells.push(String::from_str(Headers::PrimaryCategory.title()));
    cells.push(String::from_str(Headers::SecondaryCategory.title()));
    cells.push(String::from_str(Headers::VRChat.title()));
    cells.push(String::from_str(Headers::Adult.title()));
    cells.push(String::from_str(Headers::Tags.title()));
    cells.push(String::from_str(Headers::Price.title()));
    cells.push(String::from_str(Headers::Currency.title()));
    cells.push(String::from_str(Headers::Hearts.title()));
    cells.push(String::from_str(Headers::ImagesNumber.title()));
    cells.push(String::from_str(Headers::ImagesURLs.title()));
    cells.push(String::from_str(Headers::DownloadNumber.title()));
    cells.push(String::from_str(Headers::DownloadsLinks.title()));
    cells.push(String::from_str(Headers::Markdown.title()));
    cells.push(String::from_str(Headers::MarkdownTranslated.title()));
    cells
}

/// The cells of the row of `item`, in the order of the columns. A text
/// without translation stands for its own translation.
pub fn row_cells(item: &ItemRow) -> (cells: Vec<Cell<String>>)
    requires
        item.image_urls@.len() <= u32::MAX,
        item.download_links@.len() <= u32::MAX,
    ensures
        cells@.len() == COLUMNS,
        forall|header: Headers|
            (#[trigger] cells@[header.spec_column() as int])@ == cell_of(*item, header),
{
    let mut cells: Vec<Cell<String>> = Vec::new();
    cells.push(Cell::Text(item.item_name.clone()));
    cells.push(Cell::Text(or_untranslated(&item.item_name_translated, &item.item_name)));
    cells.push(Cell::Link(item.item_link.clone()));
    cells.push(Cell::Text(item.author_name.clone()));
    cells.push(Cell::Text(or_untranslated(&item.author_name_translated, &item.author_name)));
    cells.push(Cell::Link(item.author_link.clone()));
    cells.push(Cell::Text(item.primary_category.clone()));
    cells.push(Cell::Text(item.secondary_category.clone()));
    cells.push(Cell::Flag(item.vrchat));
    cells.push(Cell::Flag(item.adult));
    cells.push(Cell::Text(join(&item.tags, ", ")));
    cells.push(Cell::Amount(item.price.clone()));
    cells.push(Cell::Text(item.currency.clone()));
    cells.push(Cell::Count(item.hearts));
    cells.push(Cell::Count(item.image_urls.len() as u32));
    cells.push(Cell::Text(join(&item.image_urls, "\n")));
    cells.push(Cell::Count(item.download_links.len() as u32));
    cells.push(Cell::Text(join(&item.download_links, "\n")));
    cells.push(Cell::Text(item.markdown.clone()));
    cells.push(Cell::Text(or_untranslated(&item.markdown_translated, &item.markdown)));
    cells
}

/// The number of the sheet's row for the item at `index` of a list: the row
/// of the titles comes first.
pub fn row_number(index: usize) -> (row: u32)
    requires
        index < u32::MAX,
    ensures
        row == index + 1,
{
    index as u32 + 1
}

/// The last column that the filter of the title row covers.
pub fn filtered_up_to() -> (col: u16)
    ensures
        col == Headers::Markdown.spec_column(),
{
    Headers::Markdown.column()
}

} // verus!
