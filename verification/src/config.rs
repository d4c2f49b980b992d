//! Where the site's sources and output live, relative to the workspace root.
use vstd::prelude::*;

use crate::paths::{join, join_path, path_with_extension, with_extension};
use crate::text::{push_str, string_from_chars};

verus! {

/// Data directory containing JSON definitions for items, NPCs, etc.
pub const DATA_DIR: &'static str = "site/data";

/// Templates directory containing Tera HTML templates
pub const TEMPLATES_DIR: &'static str = "site/templates";

/// Source HTML directory (contains index.html template and markdown pages)
pub const HTML_DIR: &'static str = "site/html";

/// Output directory for generated HTML pages
pub const OUTPUT_DIR: &'static str = "out";

/// The workspace root that directories are resolved against. It can be set once;
/// later settings are ignored.
pub struct BasePath {
    base: Option<String>,
}

impl View for BasePath {
    type V = Option<Seq<char>>;

    closed spec fn view(&self) -> Option<Seq<char>> {
        match self.base {
            Some(b) => Some(b@),
            None => None,
        }
    }
}

impl BasePath {
    /// No base set yet.
    pub fn new() -> (r: Self)
        ensures
            r@ is None,
    {
        BasePath { base: None }
    }
}

/// The base after asking to set it to `path`: a base already set stays.
pub open spec fn with_base(state: Option<Seq<char>>, path: Seq<char>) -> Option<Seq<char>> {
    match state {
        Some(b) => Some(b),
        None => Some(path),
    }
}

/// Sets the base path if none is set yet; a base already set stays.
pub fn set_base_path(config: &mut BasePath, path: &str)
    ensures
        final(config)@ == with_base(old(config)@, path@),
{
    if config.base.is_none() {
        let mut v: Vec<char> = Vec::new();
        push_str(&mut v, path);
        config.base = Some(string_from_chars(v.as_slice()));
    }
}

/// Where `relative` lies: joined to the base if one is set, else `../relative`.
pub open spec fn resolved(base: Option<Seq<char>>, relative: Seq<char>) -> Seq<char> {
    match base {
        Some(b) => join(b, relative),
        None => "../"@ + relative,
    }
}

/// Resolves `relative` against the base (see [`resolved`]).
pub fn resolve_path(config: &BasePath, relative: &str) -> (r: String)
    ensures
        r@ == resolved(config@, relative@),
{
    match &config.base {
        Some(b) => join_path(b.as_str(), relative),
        None => {
            let mut v: Vec<char> = Vec::new();
            push_str(&mut v, "../");
            push_str(&mut v, relative);
            string_from_chars(v.as_slice())
        },
    }
}

/// The data directory.
pub fn data_dir(config: &BasePath) -> (r: String)
    ensures
        r@ == resolved(config@, DATA_DIR@),
{
    resolve_path(config, DATA_DIR)
}

/// The templates directory.
pub fn templates_dir(config: &BasePath) -> (r: String)
    ensures
        r@ == resolved(config@, TEMPLATES_DIR@),
{
    resolve_path(config, TEMPLATES_DIR)
}

/// The source HTML directory.
pub fn html_dir(config: &BasePath) -> (r: String)
    ensures
        r@ == resolved(config@, HTML_DIR@),
{
    resolve_path(config, HTML_DIR)
}

/// The output directory.
pub fn output_dir(config: &BasePath) -> (r: String)
    ensures
        r@ == resolved(config@, OUTPUT_DIR@),
{
    resolve_path(config, OUTPUT_DIR)
}

/// Once a base is set, setting it again changes nothing: every directory resolves
/// as it did after the first setting.
pub proof fn law_first_base_wins(state: Option<Seq<char>>, first: Seq<char>, second: Seq<char>, relative: Seq<char>)
    ensures
        with_base(with_base(state, first), second) == with_base(state, first),
        resolved(with_base(with_base(state, first), second), relative) == resolved(
            with_base(state, first),
            relative,
        ),
{
}

/// The glob that picks up every template: `DIR/**/*.html`.
pub fn template_glob(templates_dir: &str) -> (r: String)
    ensures
        r@ == templates_dir@ + "/**/*.html"@,
{
    let mut v: Vec<char> = Vec::new();
    push_str(&mut v, templates_dir);
    push_str(&mut v, "/**/*.html");
    string_from_chars(v.as_slice())
}

/// Where the page of a record (an item, an NPC, ...) goes: `OUT/SECTION/ID.html`.
pub fn record_page_path(output_dir: &str, section: &str, id: &str) -> (r: String)
    ensures
        r@ == join(join(output_dir@, section@), id@ + ".html"@),
{
    let dir = join_path(output_dir, section);
    let mut file: Vec<char> = Vec::new();
    push_str(&mut file, id);
    push_str(&mut file, ".html");
    let file = string_from_chars(file.as_slice());
    join_path(dir.as_str(), file.as_str())
}

/// Where a markdown page goes: its slug under the output directory, with the
/// extension `html`.
pub fn page_output_path(output_dir: &str, slug: &str) -> (r: String)
    ensures
        r@ == with_extension(join(output_dir@, slug@), "html"@),
{
    let joined = join_path(output_dir, slug);
    path_with_extension(joined.as_str(), "html")
}

} // verus!
