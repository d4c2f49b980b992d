use wiki_builder::data::{
    build_page, enrich_drop, enrich_drops, is_regular_slug, regular_page_indices, title_for_slug,
    Item, Npc, Page,
};
use wiki_builder::order::{name_le_exec, sort_by_name};
use wiki_builder::postprocess::item_link;

fn item(id: &str, name: &str, price: Option<u64>) -> Item {
    Item {
        id: id.to_string(),
        name: name.to_string(),
        description: String::new(),
        item_type: "Ore".to_string(),
        damage: None,
        armor: None,
        healing: None,
        level_requirement: 0,
        acquisition: String::new(),
        sell_price: price,
        notes: String::new(),
    }
}

fn npc(id: &str, name: &str) -> Npc {
    Npc {
        id: id.to_string(),
        name: name.to_string(),
        location: String::new(),
        role: String::new(),
        description: String::new(),
        level: None,
        hitpoints: None,
        drops: vec![],
        notes: String::new(),
    }
}

fn page(slug: &str) -> Page {
    Page { slug: slug.to_string(), title: String::new(), body_html: String::new() }
}

#[test]
fn sort_orders_by_name_and_is_stable() {
    let mut npcs = vec![npc("1", "Zed"), npc("2", "Bob"), npc("3", "Amy"), npc("4", "Bob"), npc("5", "Bo")];
    sort_by_name(&mut npcs);
    let ids: Vec<&str> = npcs.iter().map(|n| n.id.as_str()).collect();
    assert_eq!(ids, vec!["3", "5", "2", "4", "1"]);
}

#[test]
fn sort_agrees_with_std_stable_sort() {
    let names = ["éclair", "Eclair", "b", "", "a", "ab", "B", "a", "ζ", "Z"];
    let mut ours: Vec<Item> = names.iter().enumerate().map(|(i, n)| item(&i.to_string(), n, None)).collect();
    let mut theirs: Vec<Item> = ours.clone();
    sort_by_name(&mut ours);
    theirs.sort_by(|a, b| a.name.cmp(&b.name));
    let a: Vec<&str> = ours.iter().map(|i| i.id.as_str()).collect();
    let b: Vec<&str> = theirs.iter().map(|i| i.id.as_str()).collect();
    assert_eq!(a, b);
}

#[test]
fn name_order() {
    assert!(name_le_exec("", "a"));
    assert!(name_le_exec("a", "ab"));
    assert!(!name_le_exec("b", "ab"));
    assert!(name_le_exec("Z", "a"));
    assert!(name_le_exec("same", "same"));
}

#[test]
fn drops_are_enriched_by_id_or_name() {
    let items = vec![item("iron-ore", "Iron Ore", Some(5)), item("gold", "Gold Bar", None)];
    let by_id = enrich_drop("iron-ore", &items);
    assert_eq!(by_id.item_id, "iron-ore");
    assert_eq!(by_id.item_name, "Iron Ore");
    assert_eq!(by_id.item_type, "Ore");
    assert_eq!(by_id.sell_price, Some(5));
    assert_eq!(by_id.link_html, item_link("iron-ore", "Iron Ore"));
    let by_name = enrich_drop("Gold Bar", &items);
    assert_eq!(by_name.item_id, "gold");
    let unknown = enrich_drop("Mystery", &items);
    assert_eq!(unknown.item_id, "Mystery");
    assert_eq!(unknown.item_name, "Mystery");
    assert_eq!(unknown.item_type, "");
    assert_eq!(unknown.sell_price, None);
    assert_eq!(unknown.link_html, "Mystery");
    let all = enrich_drops(&vec!["gold".to_string(), "x".to_string()], &items);
    assert_eq!(all.len(), 2);
    assert_eq!(all[0].item_name, "Gold Bar");
    assert_eq!(all[1].item_name, "x");
}

#[test]
fn markdown_pages() {
    let p = build_page("guides/getting-started.md", "# Hello\n").unwrap();
    assert_eq!(p.slug, "guides/getting-started");
    assert_eq!(p.title, "Getting Started");
    assert_eq!(p.body_html, "<h1>Hello</h1>\n");
    assert!(build_page("guides/notes.txt", "x").is_none());
    assert!(build_page("guides/.md", "x").is_none());
    assert_eq!(build_page("my-page.md", "").unwrap().slug, "my-page");
}

#[test]
fn titles() {
    assert_eq!(title_for_slug("lore/the-old-king"), "The Old King");
    assert_eq!(title_for_slug("faq"), "Faq");
}

#[test]
fn regular_pages() {
    assert!(is_regular_slug("guides/a"));
    assert!(!is_regular_slug("npcs/bob"));
    assert!(is_regular_slug("npcs"));
    let pages = vec![page("a"), page("npcs/bob"), page("b/npcs/c"), page("npcs/x"), page("z")];
    assert_eq!(regular_page_indices(&pages), vec![0, 2, 4]);
}
