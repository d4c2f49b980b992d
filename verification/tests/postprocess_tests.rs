use regex::Regex;
use wiki_builder::postprocess::{
    id_to_display_name, item_link, item_type_link, linkify_filter_value, linkify_references,
    npc_link, type_link_filter_value,
};

/// The markup rewritten with the regex crate, pattern by pattern, as a reference.
fn reference_linkify(text: &str) -> String {
    let item = Regex::new(r#"<item\s+name="([^"]+)"[^>]*>([^<]*)</item>"#).unwrap();
    let npc = Regex::new(r#"<npc\s+name="([^"]+)"[^>]*>([^<]*)</npc>"#).unwrap();
    let item_short = Regex::new(r#"<item:([a-z0-9-]+)>"#).unwrap();
    let npc_short = Regex::new(r#"<npc:([a-z0-9-]+)>"#).unwrap();
    let mut result = text.to_string();
    result = item
        .replace_all(&result, |c: &regex::Captures| item_link(&c[1], &c[2]))
        .to_string();
    result = npc
        .replace_all(&result, |c: &regex::Captures| npc_link(&c[1], &c[2]))
        .to_string();
    result = item_short
        .replace_all(&result, |c: &regex::Captures| item_link(&c[1], &id_to_display_name(&c[1])))
        .to_string();
    result = npc_short
        .replace_all(&result, |c: &regex::Captures| npc_link(&c[1], &id_to_display_name(&c[1])))
        .to_string();
    result
}

#[test]
fn display_name_of_hyphenated_id() {
    assert_eq!(id_to_display_name("iron-ore"), "Iron Ore");
}

#[test]
fn display_name_edge_cases() {
    assert_eq!(id_to_display_name(""), "");
    assert_eq!(id_to_display_name("sword"), "Sword");
    assert_eq!(id_to_display_name("a--b"), "A  B");
    assert_eq!(id_to_display_name("-x-"), " X ");
    assert_eq!(id_to_display_name("2-handed-axe"), "2 Handed Axe");
    assert_eq!(id_to_display_name("Already-Up"), "Already Up");
    assert_eq!(id_to_display_name("ßword"), "SSword");
    assert_eq!(id_to_display_name("élan-vital"), "Élan Vital");
}

#[test]
fn item_link_format() {
    assert_eq!(
        item_link("iron-ore", "Iron Ore"),
        r#"<a href="/items/iron-ore.html" class="item-link"><img src="/assets/images/items/iron-ore.png" alt="Iron Ore" class="inline-icon" />Iron Ore</a>"#
    );
}

#[test]
fn npc_link_format() {
    assert_eq!(
        npc_link("old-bob", "Bob"),
        r#"<a href="/npcs/old-bob.html" class="npc-link"><img src="/assets/images/npcs/old-bob.png" alt="Bob" class="inline-icon" />Bob</a>"#
    );
}

#[test]
fn item_type_link_format() {
    assert_eq!(
        item_type_link("Heavy Armor"),
        r#"<a href="/items/?type=heavy-armor" class="type-link">Heavy Armor</a>"#
    );
    assert_eq!(
        item_type_link("ÉPÉE Lourde"),
        r#"<a href="/items/?type=épée-lourde" class="type-link">ÉPÉE Lourde</a>"#
    );
}

#[test]
fn linkify_verbose_item() {
    assert_eq!(
        linkify_references(r#"Find <item name="iron-ore">some ore</item> here."#),
        format!("Find {} here.", item_link("iron-ore", "some ore"))
    );
}

#[test]
fn linkify_verbose_npc_with_attributes() {
    assert_eq!(
        linkify_references("<npc\t name=\"bob\" class=\"x\">Bob</npc>"),
        npc_link("bob", "Bob")
    );
}

#[test]
fn linkify_shorthand() {
    assert_eq!(
        linkify_references("Talk to <npc:old-bob> for <item:iron-ore>."),
        format!(
            "Talk to {} for {}.",
            npc_link("old-bob", "Old Bob"),
            item_link("iron-ore", "Iron Ore")
        )
    );
}

#[test]
fn linkify_leaves_plain_text() {
    let text = "No markup here, just text & symbols > signs.";
    assert_eq!(linkify_references(text), text);
}

#[test]
fn linkify_rejects_malformed_markup() {
    for text in [
        "<item name=\"\">x</item>",
        "<itemname=\"a\">x</item>",
        "<item name=\"a\">x</npc>",
        "<item:>",
        "<item:Upper>",
        "<item:a b>",
        "<item name=\"a\">x",
        "<item name='a'>x</item>",
    ] {
        assert_eq!(linkify_references(text), text, "{}", text);
    }
}

#[test]
fn linkify_agrees_with_regex_reference() {
    let cases = [
        "",
        "<",
        "<item name=\"a\">A</item><npc name=\"b\">B</npc>",
        "<item  name=\"a\" data-x=\"1\">A</item> and <item:b-c> and <npc:d>",
        "<item\u{a0}name=\"a\">A</item>",
        "<item\u{3000}\u{2009}name=\"a\">A</item>",
        "<item\nname=\"a\">multi\nline</item>",
        "<item name=\"<npc:zed>\">Z</item>",
        "<item name=\"a\"><b>bold</b></item>",
        "<item name=\"a\">x</item></item>",
        "<<item:a>>",
        "<item:a<item:b>",
        "<npc name=\"x\">y</npc <npc:q>",
        "<item name=\"a\">A</item><item name=\"b\">B</item>",
        "text <item name=\"a\" >A</item> more <npc:a-1-b> end",
        "<item\u{85}name=\"a\">A</item>",
        "<item\u{200b}name=\"a\">A</item>",
        "héllo <item:x> wörld",
    ];
    for text in cases {
        assert_eq!(linkify_references(text), reference_linkify(text), "{:?}", text);
    }
}

#[test]
fn filter_values() {
    assert_eq!(
        linkify_filter_value(Some("<item:a>")),
        Some(item_link("a", "A"))
    );
    assert_eq!(linkify_filter_value(None), None);
    assert_eq!(
        type_link_filter_value(Some("Weapon")),
        Some(r#"<a href="/items/?type=weapon" class="type-link">Weapon</a>"#.to_string())
    );
    assert_eq!(type_link_filter_value(None), None);
}
