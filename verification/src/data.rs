//! The wiki's records (items, NPCs, bosses, boss rooms, pages) and the logic that
//! shapes them: ordering by name, drop lookup, and pages built from markdown files.
use vstd::prelude::*;

use crate::order::Named;
use crate::paths::{
    extension, has_extension, last_segment, last_segment_exec, path_without_extension,
    without_extension,
};
use crate::postprocess::{item_link, link, Kind};
use crate::text::{
    chars_of, occurs_at, occurs_at_exec, replace_char, replace_char_exec, str_eq, string_from_chars,
};

verus! {

/// An item definition.
#[derive(Clone, Debug)]
pub struct Item {
    pub id: String,
    pub name: String,
    pub description: String,
    pub item_type: String,
    pub damage: Option<i32>,
    pub armor: Option<i32>,
    pub healing: Option<i32>,
    pub level_requirement: i32,
    pub acquisition: String,
    pub sell_price: Option<u64>,
    pub notes: String,
}

/// A boss definition.
#[derive(Clone, Debug)]
pub struct Boss {
    pub id: String,
    pub name: String,
    pub icon: String,
    pub location: String,
    pub role: String,
    pub description: String,
    pub level: Option<i32>,
    pub hitpoints: Option<i32>,
    pub drops: Vec<String>,
    pub notes: String,
    pub defense: Option<i32>,
    pub magic: Option<i32>,
}

/// An NPC definition.
#[derive(Clone, Debug)]
pub struct Npc {
    pub id: String,
    pub name: String,
    pub location: String,
    pub role: String,
    pub description: String,
    pub level: Option<i32>,
    pub hitpoints: Option<i32>,
    pub drops: Vec<String>,
    pub notes: String,
}

/// A page rendered from markdown.
#[derive(Clone, Debug)]
pub struct Page {
    pub slug: String,
    pub title: String,
    pub body_html: String,
}

/// A boss room definition.
#[derive(Clone, Debug)]
pub struct BossRoom {
    pub id: String,
    pub name: String,
    pub location: String,
    pub role: String,
    pub description: String,
    pub bosses: Vec<Boss>,
    pub level: Option<i32>,
    pub hitpoints: Option<i32>,
    pub notes: String,
}

/// Enriched drop information for rendering NPC drops with item links and prices
#[derive(Clone, Debug)]
pub struct EnrichedDrop {
    pub item_id: String,
    pub item_name: String,
    pub item_type: String,
    pub sell_price: Option<u64>,
    pub link_html: String,
}

impl Named for Item {
    open spec fn name_key(&self) -> Seq<char> {
        self.name@
    }

    fn name_str(&self) -> (r: &str) {
        self.name.as_str()
    }
}

impl Named for Npc {
    open spec fn name_key(&self) -> Seq<char> {
        self.name@
    }

    fn name_str(&self) -> (r: &str) {
        self.name.as_str()
    }
}

impl Named for Boss {
    open spec fn name_key(&self) -> Seq<char> {
        self.name@
    }

    fn name_str(&self) -> (r: &str) {
        self.name.as_str()
    }
}

impl Named for BossRoom {
    open spec fn name_key(&self) -> Seq<char> {
        self.name@
    }

    fn name_str(&self) -> (r: &str) {
        self.name.as_str()
    }
}

// ---------------------------------------------------------------------------
// Drops

/// Whether `item` is what a drop names: by its id or by its name.
pub open spec fn names_item(item: Item, drop: Seq<char>) -> bool {
    item.id@ == drop || item.name@ == drop
}

/// The index of the first item that the drop names, if any.
pub open spec fn drop_index(items: Seq<Item>, drop: Seq<char>) -> Option<int> {
    if exists|k: int| 0 <= k < items.len() && names_item(items[k], drop) {
        Some(
            choose|k: int|
                0 <= k < items.len() && names_item(items[k], drop) && forall|j: int|
                    0 <= j < k ==> !names_item(#[trigger] items[j], drop),
        )
    } else {
        None
    }
}

/// The drop's details: those of the first item it names, with a link to that item; a
/// drop that names no item keeps its own text as id, name and link, with no type or price.
pub open spec fn enriched(drop: EnrichedDrop, items: Seq<Item>, drop_name: Seq<char>) -> bool {
    match drop_index(items, drop_name) {
        Some(k) => {
            &&& drop.item_id@ == items[k].id@
            &&& drop.item_name@ == items[k].name@
            &&& drop.item_type@ == items[k].item_type@
            &&& drop.sell_price == items[k].sell_price
            &&& drop.link_html@ == link(Kind::Item, items[k].id@, items[k].name@)
        },
        None => {
            &&& drop.item_id@ == drop_name
            &&& drop.item_name@ == drop_name
            &&& drop.item_type@ == Seq::<char>::empty()
            &&& drop.sell_price is None
            &&& drop.link_html@ == drop_name
        },
    }
}

/// Looks up what a drop names among the items.
pub fn enrich_drop(drop_name: &str, items: &[Item]) -> (r: EnrichedDrop)
    ensures
        enriched(r, items@, drop_name@),
{
    let mut k: usize = 0;
    while k < items.len()
        invariant
            k <= items@.len(),
            forall|j: int| 0 <= j < k ==> !names_item(#[trigger] items@[j], drop_name@),
        decreases items@.len() - k,
    {
        let item = &items[k];
        let by_id = str_eq(item.id.as_str(), drop_name);
        let by_name = str_eq(item.name.as_str(), drop_name);
        if by_id || by_name {
            proof {
                let ghost c = choose|c: int|
                    0 <= c < items@.len() && names_item(items@[c], drop_name@) && forall|j: int|
                        0 <= j < c ==> !names_item(#[trigger] items@[j], drop_name@);
                assert(names_item(items@[k as int], drop_name@));
                assert(c == k) by {
                    if c < k {
                        assert(!names_item(items@[c], drop_name@));
                    }
                    if c > k {
                        assert(!names_item(items@[k as int], drop_name@));
                    }
                }
            }
            return EnrichedDrop {
                item_id: item.id.clone(),
                item_name: item.name.clone(),
                item_type: item.item_type.clone(),
                sell_price: item.sell_price,
                link_html: item_link(item.id.as_str(), item.name.as_str()),
            };
        }
        k = k + 1;
    }
    let d = chars_of(drop_name);
    EnrichedDrop {
        item_id: string_from_chars(d.as_slice()),
        item_name: string_from_chars(d.as_slice()),
        item_type: String::new(),
        sell_price: None,
        link_html: string_from_chars(d.as_slice()),
    }
}

/// The enriched drops of a list of drop names, in order.
pub fn enrich_drops(drops: &Vec<String>, items: &[Item]) -> (r: Vec<EnrichedDrop>)
    ensures
        r@.len() == drops@.len(),
        forall|k: int| 0 <= k < drops@.len() ==> enriched(#[trigger] r@[k], items@, drops@[k]@),
{
    let mut out: Vec<EnrichedDrop> = Vec::new();
    let mut k: usize = 0;
    while k < drops.len()
        invariant
            k <= drops@.len(),
            out@.len() == k,
            forall|j: int| 0 <= j < k ==> enriched(#[trigger] out@[j], items@, drops@[j]@),
        decreases drops@.len() - k,
    {
        out.push(enrich_drop(drops[k].as_str(), items));
        k = k + 1;
    }
    out
}

proof fn lemma_first_naming(items: Seq<Item>, d: Seq<char>, k0: int)
    requires
        0 <= k0 < items.len(),
        names_item(items[k0], d),
    ensures
        exists|k: int|
            0 <= k < items.len() && names_item(items[k], d) && forall|j: int|
                0 <= j < k ==> !names_item(#[trigger] items[j], d),
    decreases k0,
{
    if exists|j: int| 0 <= j < k0 && names_item(items[j], d) {
        let j = choose|j: int| 0 <= j < k0 && names_item(items[j], d);
        lemma_first_naming(items, d, j);
    } else {
        assert forall|j: int| 0 <= j < k0 implies !names_item(#[trigger] items[j], d) by {}
    }
}

/// A drop that names an item, by its id or by its name, takes the first such item's
/// details and links to that item's page, which is named by the item's id; a drop that
/// names no item keeps its own text and links nowhere.
pub proof fn law_drop_links_to_item_page(drop: EnrichedDrop, items: Seq<Item>, d: Seq<char>)
    requires
        enriched(drop, items, d),
    ensures
        (exists|k: int| 0 <= k < items.len() && (items[k].id@ == d || items[k].name@ == d))
            ==> exists|k: int|
            {
                &&& 0 <= k < items.len()
                &&& (items[k].id@ == d || items[k].name@ == d)
                &&& forall|j: int|
                    0 <= j < k ==> #[trigger] items[j].id@ != d && items[j].name@ != d
                &&& drop.item_id@ == items[k].id@
                &&& drop.item_name@ == items[k].name@
                &&& drop.item_type@ == items[k].item_type@
                &&& drop.sell_price == items[k].sell_price
                &&& link(Kind::Item, items[k].id@, items[k].name@) == drop.link_html@
            },
        !(exists|k: int| 0 <= k < items.len() && (items[k].id@ == d || items[k].name@ == d)) ==> {
            &&& drop.item_id@ == d
            &&& drop.item_name@ == d
            &&& drop.item_type@.len() == 0
            &&& drop.sell_price is None
            &&& drop.link_html@ == d
        },
{
    if exists|k: int| 0 <= k < items.len() && (items[k].id@ == d || items[k].name@ == d) {
        let k0 = choose|k: int| 0 <= k < items.len() && (items[k].id@ == d || items[k].name@ == d);
        lemma_first_naming(items, d, k0);
        let k = choose|k: int|
            0 <= k < items.len() && names_item(items[k], d) && forall|j: int|
                0 <= j < k ==> !names_item(#[trigger] items[j], d);
        assert(drop_index(items, d) == Some(k));
        assert forall|j: int| 0 <= j < k implies #[trigger] items[j].id@ != d && items[j].name@ != d by {
            assert(!names_item(items[j], d));
        }
        assert(drop.link_html@ == link(Kind::Item, items[k].id@, items[k].name@));
        assert(drop.item_id@ == items[k].id@);
    } else {
        assert(!exists|k: int| 0 <= k < items.len() && names_item(items[k], d));
    }
}

// ---------------------------------------------------------------------------
// Pages

/// What `pulldown_cmark` renders, as HTML, from `markdown` with every extension enabled.
pub uninterp spec fn markdown_html(markdown: Seq<char>) -> Seq<char>;

/// What `convert_case` gives for `s` in title case.
pub uninterp spec fn title_case(s: Seq<char>) -> Seq<char>;

/// Renders markdown to HTML with `pulldown_cmark` (`Parser::new_ext` with
/// `Options::all()`, then `html::push_html` into an empty string).
/// Claims only that the result is `markdown_html` of the input.
#[verifier::external_body]
fn markdown_to_html(markdown: &str) -> (r: String)
    ensures
        r@ == markdown_html(markdown@),
{
    let parser = pulldown_cmark::Parser::new_ext(markdown, pulldown_cmark::Options::all());
    let mut body_html = String::new();
    pulldown_cmark::html::push_html(&mut body_html, parser);
    body_html
}

/// Converts `s` to title case with `convert_case` (`Casing::to_case(Case::Title)`).
/// Claims only that the result is `title_case` of the input.
#[verifier::external_body]
fn to_title_case(s: &str) -> (r: String)
    ensures
        r@ == title_case(s@),
{
    convert_case::Casing::to_case(&s, convert_case::Case::Title)
}

/// The slug of a markdown file, by its path relative to the pages directory: the path
/// without its `.md` extension. Files of other extensions are no pages.
pub open spec fn page_slug(rel_path: Seq<char>) -> Option<Seq<char>> {
    if extension(rel_path) == Some("md"@) {
        Some(without_extension(rel_path))
    } else {
        None
    }
}

/// The title of a page: the last `/`-separated part of its slug, with `-` read as a
/// space, in title case.
pub open spec fn page_title(slug: Seq<char>) -> Seq<char> {
    title_case(replace_char(last_segment(slug), '-', ' '))
}

/// The page that a markdown file makes, by its path relative to the pages directory
/// and its text; none for a file that is not markdown.
pub fn build_page(rel_path: &str, markdown: &str) -> (r: Option<Page>)
    ensures
        match page_slug(rel_path@) {
            Some(slug) => r matches Some(page) && page.slug@ == slug && page.title@ == page_title(
                slug,
            ) && page.body_html@ == markdown_html(markdown@),
            None => r is None,
        },
{
    if !has_extension(rel_path, "md") {
        return None;
    }
    let slug = path_without_extension(rel_path);
    let title = title_for_slug(slug.as_str());
    let body_html = markdown_to_html(markdown);
    Some(Page { slug, title, body_html })
}

/// The title of the page with the given slug (see [`page_title`]).
pub fn title_for_slug(slug: &str) -> (r: String)
    ensures
        r@ == page_title(slug@),
{
    let last = last_segment_exec(slug);
    let spaced = replace_char_exec(&last, '-', ' ');
    let s = string_from_chars(spaced.as_slice());
    to_title_case(s.as_str())
}

/// A page's title is the title case of the last part of its slug with each `-` read
/// as a space: a text of that part's length that holds no `-`, has a space where the part
/// has a `-`, and keeps every other character in place.
pub proof fn law_page_title(slug: Seq<char>)
    ensures
        exists|spaced: Seq<char>|
            {
                &&& page_title(slug) == title_case(spaced)
                &&& spaced.len() == last_segment(slug).len()
                &&& forall|k: int|
                    0 <= k < spaced.len() ==> #[trigger] spaced[k] == (if last_segment(slug)[k]
                        == '-' {
                        ' '
                    } else {
                        last_segment(slug)[k]
                    })
            },
{
    let seg = last_segment(slug);
    let spaced = replace_char(seg, '-', ' ');
    assert(spaced.len() == seg.len());
    assert(page_title(slug) == title_case(spaced));
    assert(forall|k: int|
        0 <= k < spaced.len() ==> #[trigger] spaced[k] == (if seg[k] == '-' {
            ' '
        } else {
            seg[k]
        }));
}

/// Pages under `npcs/` are NPC notes, not pages of their own.
pub open spec fn is_regular_page(slug: Seq<char>) -> bool {
    !occurs_at(slug, 0, "npcs/"@)
}

/// Whether the page with this slug is rendered as a page of its own.
pub fn is_regular_slug(slug: &str) -> (r: bool)
    ensures
        r == is_regular_page(slug@),
{
    let s = chars_of(slug);
    let prefix = chars_of("npcs/");
    !occurs_at_exec(&s, 0, &prefix)
}

/// The indices of the regular pages, in order.
pub fn regular_page_indices(pages: &[Page]) -> (r: Vec<usize>)
    ensures
        forall|j: int, k: int| 0 <= j < k < r@.len() ==> r@[j] < r@[k],
        forall|k: int| 0 <= k < r@.len() ==> #[trigger] r@[k] < pages@.len() && is_regular_page(
            pages@[r@[k] as int].slug@,
        ),
        forall|i: int|
            0 <= i < pages@.len() && is_regular_page(#[trigger] pages@[i].slug@) ==> r@.contains(
                i as usize,
            ),
{
    let mut out: Vec<usize> = Vec::new();
    let mut i: usize = 0;
    while i < pages.len()
        invariant
            i <= pages@.len(),
            forall|j: int, k: int| 0 <= j < k < out@.len() ==> out@[j] < out@[k],
            forall|k: int| 0 <= k < out@.len() ==> #[trigger] out@[k] < i && is_regular_page(
                pages@[out@[k] as int].slug@,
            ),
            forall|j: int|
                0 <= j < i && is_regular_page(#[trigger] pages@[j].slug@) ==> out@.contains(
                    j as usize,
                ),
        decreases pages@.len() - i,
    {
        if is_regular_slug(pages[i].slug.as_str()) {
            let ghost before = out@;
            out.push(i);
            assert forall|j: int|
                0 <= j < i + 1 && is_regular_page(#[trigger] pages@[j].slug@) implies out@.contains(
                j as usize,
            ) by {
                if j < i {
                    let w = choose|w: int| 0 <= w < before.len() && before[w] == j as usize;
                    assert(out@[w] == j as usize);
                } else {
                    assert(out@[out@.len() - 1] == i);
                }
            }
        }
        i = i + 1;
    }
    out
}

} // verus!
