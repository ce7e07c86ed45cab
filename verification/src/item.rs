//! What the rows and the metadata of an item are made of: the parts of a
//! price, counts, tags and links.

use crate::api_structs::items::{Image, NoMusic, Tag, Variation};
use crate::text::{chars_of, string_of, texts};
use vstd::prelude::*;
use vstd::string::StringExecFns;

verus! {

/// Why an item's data cannot be used.
#[derive(Debug, Clone, Copy, PartialEq, Eq, Structural)]
pub enum ItemError {
    /// The item's number does not fit 32 bits.
    Id,
    /// The number of wishlists that hold the item does not fit 32 bits.
    Hearts,
    /// The price is not an amount, a space, and a unit.
    Price,
}

/// The lowercase form of `s`, as `str::to_lowercase` gives it.
pub uninterp spec fn lowercased(s: Seq<char>) -> Seq<char>;

/// `str::to_lowercase` gives the lowercase equivalent of the text, by the
/// Unicode property `Lowercase`. It depends on the text alone.
pub assume_specification[ str::to_lowercase ](s: &str) -> (lower: String)
    ensures
        lower@ == lowercased(s@),
;

/// The least index at or after `from` where `c` stands in `s`; the length
/// of `s` where it stands nowhere there.
pub open spec fn index_of(s: Seq<char>, c: char, from: int) -> int
    decreases s.len() - from,
{
    if from < 0 || from >= s.len() {
        s.len() as int
    } else if s[from] == c {
        from
    } else {
        index_of(s, c, from + 1)
    }
}

/// `s` without the characters that are `c`.
pub open spec fn without(s: Seq<char>, c: char) -> Seq<char>
    decreases s.len(),
{
    if s.len() == 0 {
        Seq::empty()
    } else if s.last() == c {
        without(s.drop_last(), c)
    } else {
        without(s.drop_last(), c).push(s.last())
    }
}

/// Whether `price` holds a space, and so an amount and a unit.
pub open spec fn has_unit(price: Seq<char>) -> bool {
    index_of(price, ' ', 0) < price.len()
}

/// Whether `price` holds exactly one space.
pub open spec fn has_one_space(price: Seq<char>) -> bool {
    &&& has_unit(price)
    &&& index_of(price, ' ', index_of(price, ' ', 0) + 1) == price.len()
}

/// The amount of `price`: what stands before the first space, without the
/// commas that group its digits.
pub open spec fn amount_of(price: Seq<char>) -> Seq<char> {
    without(price.subrange(0, index_of(price, ' ', 0)), ',')
}

/// The unit of `price`: what stands behind the first space.
pub open spec fn unit_of(price: Seq<char>) -> Seq<char> {
    if has_unit(price) {
        price.subrange(index_of(price, ' ', 0) + 1, price.len() as int)
    } else {
        Seq::empty()
    }
}

/// Whether `n` fits 32 bits without a sign.
pub open spec fn fits_u32(n: i64) -> bool {
    0 <= n <= u32::MAX
}

/// The names of `tags`, in order.
pub open spec fn tag_names_of(tags: Seq<Tag>) -> Seq<Seq<char>> {
    Seq::new(tags.len(), |i: int| tags[i].name@)
}

/// Whether one of `tags` is named `vrchat`, in whatever case.
pub open spec fn names_vrchat(tags: Seq<Tag>) -> bool {
    exists|i: int| 0 <= i < tags.len() && lowercased(#[trigger] tags[i].name@) == "vrchat"@
}

/// Whether one of `tags` has exactly the name `name`.
pub open spec fn has_tag(tags: Seq<Tag>, name: Seq<char>) -> bool {
    exists|i: int| 0 <= i < tags.len() && #[trigger] tags[i].name@ == name
}

/// The addresses of `files`, in order.
pub open spec fn file_urls(files: Seq<NoMusic>) -> Seq<Seq<char>> {
    Seq::new(files.len(), |i: int| files[i].url@)
}

/// The addresses of the files of one variation.
pub open spec fn variation_links(variation: Variation) -> Seq<Seq<char>> {
    match variation.downloadable {
        Some(downloadable) => file_urls(downloadable.no_musics@),
        None => Seq::empty(),
    }
}

/// The addresses of the files of `variations`: those of the first
/// variation, then those of the second, and so on.
pub open spec fn links_of(variations: Seq<Variation>) -> Seq<Seq<char>>
    decreases variations.len(),
{
    if variations.len() == 0 {
        Seq::empty()
    } else {
        links_of(variations.drop_last()) + variation_links(variations.last())
    }
}

/// The addresses of `images` at full size, in order.
pub open spec fn originals_of(images: Seq<Image>) -> Seq<Seq<char>> {
    Seq::new(images.len(), |i: int| images[i].original@)
}

/// The index of the first `c` in `chars` at or after `from`, or the length.
pub fn find_char(chars: &Vec<char>, c: char, from: usize) -> (at: usize)
    requires
        from <= chars.len(),
    ensures
        at == index_of(chars@, c, from as int),
        from <= at <= chars.len(),
{
    let mut i: usize = from;
    while i < chars.len() && chars[i] != c
        invariant
            from <= i <= chars.len(),
            index_of(chars@, c, from as int) == index_of(chars@, c, i as int),
        decreases chars.len() - i,
    {
        i += 1;
    }
    i
}

/// The amount and the unit of a price such as `1,500 JPY`: the amount
/// without its commas, and what follows the first space. `None` where the
/// price holds no space.
pub fn price_parts(price: &str) -> (parts: Option<(String, String)>)
    ensures
        match parts {
            Some((amount, unit)) => has_unit(price@) && amount@ == amount_of(price@) && unit@
                == unit_of(price@),
            None => !has_unit(price@),
        },
{
    let chars = chars_of(price);
    let n = chars.len();
    let at = find_char(&chars, ' ', 0);
    if at == n {
        return None;
    }
    let mut amount: Vec<char> = Vec::new();
    let mut i: usize = 0;
    while i < at
        invariant
            i <= at < n,
            n == chars.len(),
            amount@ == without(chars@.subrange(0, i as int), ','),
        decreases at - i,
    {
        proof {
            let next = chars@.subrange(0, i + 1);
            assert(next.drop_last() =~= chars@.subrange(0, i as int));
            assert(next.last() == chars@[i as int]);
        }
        if chars[i] != ',' {
            amount.push(chars[i]);
        }
        i += 1;
    }
    let mut unit: Vec<char> = Vec::new();
    let mut j: usize = at + 1;
    while j < n
        invariant
            at < j <= n,
            n == chars.len(),
            unit@ == chars@.subrange(at + 1, j as int),
        decreases n - j,
    {
        unit.push(chars[j]);
        j += 1;
    }
    Some((string_of(&amount), string_of(&unit)))
}

/// Whether `price` holds exactly one space.
pub fn one_space(price: &str) -> (b: bool)
    ensures
        b == has_one_space(price@),
{
    let chars = chars_of(price);
    let n = chars.len();
    let at = find_char(&chars, ' ', 0);
    if at == n {
        return false;
    }
    find_char(&chars, ' ', at + 1) == n
}

/// `n` as a count of 32 bits, where it fits.
pub fn count_of(n: i64) -> (count: Option<u32>)
    ensures
        match count {
            Some(c) => fits_u32(n) && c == n,
            None => !fits_u32(n),
        },
{
    if 0 <= n && n <= 0xFFFF_FFFF {
        Some(n as u32)
    } else {
        None
    }
}

/// The names of `tags`, in order.
pub fn tag_names(tags: &Vec<Tag>) -> (names: Vec<String>)
    ensures
        texts(names@) == tag_names_of(tags@),
{
    let mut names: Vec<String> = Vec::new();
    let mut i: usize = 0;
    while i < tags.len()
        invariant
            i <= tags.len(),
            names@.len() == i,
            forall|j: int| 0 <= j < i ==> (#[trigger] names@[j])@ == tags@[j].name@,
        decreases tags.len() - i,
    {
        names.push(tags[i].name.clone());
        i += 1;
    }
    assert(texts(names@) =~= tag_names_of(tags@));
    names
}

/// Whether one of `tags` is named `vrchat`, in whatever case.
pub fn is_vrchat(tags: &Vec<Tag>) -> (b: bool)
    ensures
        b == names_vrchat(tags@),
{
    let wanted = String::from_str("vrchat");
    let mut i: usize = 0;
    while i < tags.len()
        invariant
            i <= tags.len(),
            wanted@ == "vrchat"@,
            forall|j: int| 0 <= j < i ==> lowercased(#[trigger] tags@[j].name@) != "vrchat"@,
        decreases tags.len() - i,
    {
        let lower = tags[i].name.as_str().to_lowercase();
        if lower == wanted {
            return true;
        }
        i += 1;
    }
    false
}

/// Whether one of `tags` has exactly the name `name`.
pub fn tagged(tags: &Vec<Tag>, name: &str) -> (b: bool)
    ensures
        b == has_tag(tags@, name@),
{
    let wanted = String::from_str(name);
    let mut i: usize = 0;
    while i < tags.len()
        invariant
            i <= tags.len(),
            wanted@ == name@,
            forall|j: int| 0 <= j < i ==> #[trigger] tags@[j].name@ != name@,
        decreases tags.len() - i,
    {
        if tags[i].name == wanted {
            return true;
        }
        i += 1;
    }
    false
}

/// The addresses of the files of `variations`: those of the first
/// variation, then those of the second, and so on.
pub fn download_links(variations: &Vec<Variation>) -> (links: Vec<String>)
    ensures
        texts(links@) == links_of(variations@),
{
    let mut links: Vec<String> = Vec::new();
    let mut i: usize = 0;
    while i < variations.len()
        invariant
            i <= variations.len(),
            texts(links@) == links_of(variations@.take(i as int)),
        decreases variations.len() - i,
    {
        let ghost before = texts(links@);
        proof {
            let next = variations@.take(i + 1);
            assert(next.drop_last() =~= variations@.take(i as int));
            assert(next.last() == variations@[i as int]);
        }
        match &variations[i].downloadable {
            Some(downloadable) => {
                let mut j: usize = 0;
                while j < downloadable.no_musics.len()
                    invariant
                        j <= downloadable.no_musics.len(),
                        texts(links@) == before + file_urls(
                            downloadable.no_musics@,
                        ).take(j as int),
                    decreases downloadable.no_musics.len() - j,
                {
                    let ghost so_far = texts(links@);
                    links.push(downloadable.no_musics[j].url.clone());
                    assert(texts(links@) =~= so_far.push(
                        downloadable.no_musics@[j as int].url@,
                    ));
                    assert(file_urls(downloadable.no_musics@).take(j + 1) =~= file_urls(
                        downloadable.no_musics@,
                    ).take(j as int).push(downloadable.no_musics@[j as int].url@));
                    j += 1;
                }
                assert(file_urls(downloadable.no_musics@).take(
                    downloadable.no_musics.len() as int,
                ) =~= file_urls(downloadable.no_musics@));
            },
            None => {
                assert(before + Seq::<Seq<char>>::empty() =~= before);
            },
        }
        i += 1;
    }
    assert(variations@.take(variations.len() as int) =~= variations@);
    links
}

/// The addresses of `images` at full size, in order.
pub fn image_urls(images: &Vec<Image>) -> (urls: Vec<String>)
    ensures
        texts(urls@) == originals_of(images@),
{
    let mut urls: Vec<String> = Vec::new();
    let mut i: usize = 0;
    while i < images.len()
        invariant
            i <= images.len(),
            urls@.len() == i,
            forall|j: int| 0 <= j < i ==> (#[trigger] urls@[j])@ == images@[j].original@,
        decreases images.len() - i,
    {
        urls.push(images[i].original.clone());
        i += 1;
    }
    assert(texts(urls@) =~= originals_of(images@));
    urls
}

} // verus!
