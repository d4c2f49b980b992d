//! Reference markup in wiki text: `<item name="id">text</item>`, `<npc name="id">text</npc>`,
//! `<item:id>` and `<npc:id>` become links with icons.
use vstd::prelude::*;

use crate::text::{
    chars_of, occurs_at, occurs_at_exec, push_range, push_str, replace_char, replace_char_exec,
    string_from_chars,
};

verus! {

/// What a reference points at.
#[derive(PartialEq, Eq, Structural, Clone, Copy)]
pub enum Kind {
    Item,
    Npc,
}

/// How a reference is written.
#[derive(PartialEq, Eq, Structural, Clone, Copy)]
pub enum Form {
    /// `<tag name="id" ...>text</tag>`
    Verbose,
    /// `<tag:id>`
    Short,
}

/// The tag name of a kind.
pub open spec fn tag(kind: Kind) -> Seq<char> {
    match kind {
        Kind::Item => seq!['i', 't', 'e', 'm'],
        Kind::Npc => seq!['n', 'p', 'c'],
    }
}

/// Whitespace as the markup grammar's `\s` reads it (Unicode `White_Space`).
pub open spec fn is_space(c: char) -> bool {
    ||| '\u{9}' <= c <= '\u{d}'
    ||| c == ' '
    ||| c == '\u{85}'
    ||| c == '\u{a0}'
    ||| c == '\u{1680}'
    ||| '\u{2000}' <= c <= '\u{200a}'
    ||| c == '\u{2028}'
    ||| c == '\u{2029}'
    ||| c == '\u{202f}'
    ||| c == '\u{205f}'
    ||| c == '\u{3000}'
}

/// The characters allowed in a shorthand id: `a-z`, `0-9` and `-`.
pub open spec fn is_slug_char(c: char) -> bool {
    ('a' <= c <= 'z') || ('0' <= c <= '9') || c == '-'
}

/// A set of characters scanned over by the grammar.
#[derive(PartialEq, Eq, Structural, Clone, Copy)]
pub enum CharClass {
    Space,
    Slug,
    Except(char),
}

pub open spec fn in_class(c: char, class: CharClass) -> bool {
    match class {
        CharClass::Space => is_space(c),
        CharClass::Slug => is_slug_char(c),
        CharClass::Except(x) => c != x,
    }
}

/// The first index at or after `start` whose character is not in `class`
/// (`s.len()` when the run reaches the end).
pub open spec fn run_end(s: Seq<char>, start: int, class: CharClass) -> int
    decreases s.len() - start,
{
    if start >= s.len() || start < 0 {
        start
    } else if in_class(s[start], class) {
        run_end(s, start + 1, class)
    } else {
        start
    }
}

pub proof fn lemma_run_end(s: Seq<char>, start: int, class: CharClass)
    requires
        0 <= start <= s.len(),
    ensures
        start <= run_end(s, start, class) <= s.len(),
        forall|k: int| start <= k < run_end(s, start, class) ==> in_class(#[trigger] s[k], class),
        run_end(s, start, class) < s.len() ==> !in_class(s[run_end(s, start, class)], class),
    decreases s.len() - start,
{
    if start < s.len() && in_class(s[start], class) {
        lemma_run_end(s, start + 1, class);
    }
}

/// `<tag` followed by at least one space, `name="`, a non-empty id without `"`, `"`,
/// anything up to the first `>`, then the display text up to the first `<`, which must
/// open `</tag>`. Yields the end of the match, the id and the display text.
#[verifier::opaque]
pub open spec fn match_verbose(s: Seq<char>, i: int, kind: Kind) -> Option<(int, Seq<char>, Seq<char>)> {
    let t = tag(kind);
    let open = seq!['<'] + t;
    let after_tag = i + open.len();
    if !occurs_at(s, i, open) {
        None
    } else {
        let w = run_end(s, after_tag, CharClass::Space);
        let name_eq = seq!['n', 'a', 'm', 'e', '=', '"'];
        if w == after_tag || !occurs_at(s, w, name_eq) {
            None
        } else {
            let id_start = w + 6;
            let q = run_end(s, id_start, CharClass::Except('"'));
            if q == id_start || q >= s.len() {
                None
            } else {
                let g = run_end(s, q + 1, CharClass::Except('>'));
                if g >= s.len() {
                    None
                } else {
                    let text_start = g + 1;
                    let l = run_end(s, text_start, CharClass::Except('<'));
                    let close = seq!['<', '/'] + t + seq!['>'];
                    if occurs_at(s, l, close) {
                        Some((l + close.len(), s.subrange(id_start, q), s.subrange(text_start, l)))
                    } else {
                        None
                    }
                }
            }
        }
    }
}

/// `<tag:` followed by a non-empty run of `a-z0-9-` and `>`. Yields the end of the
/// match and the id.
#[verifier::opaque]
pub open spec fn match_short(s: Seq<char>, i: int, kind: Kind) -> Option<(int, Seq<char>)> {
    let open = seq!['<'] + tag(kind) + seq![':'];
    let id_start = i + open.len();
    if !occurs_at(s, i, open) {
        None
    } else {
        let r = run_end(s, id_start, CharClass::Slug);
        if r > id_start && r < s.len() && s[r] == '>' {
            Some((r + 1, s.subrange(id_start, r)))
        } else {
            None
        }
    }
}

// ---------------------------------------------------------------------------
// Links

pub open spec fn link_open(kind: Kind) -> Seq<char> {
    match kind {
        Kind::Item => "<a href=\"/items/"@,
        Kind::Npc => "<a href=\"/npcs/"@,
    }
}

pub open spec fn link_mid(kind: Kind) -> Seq<char> {
    match kind {
        Kind::Item => ".html\" class=\"item-link\"><img src=\"/assets/images/items/"@,
        Kind::Npc => ".html\" class=\"npc-link\"><img src=\"/assets/images/npcs/"@,
    }
}

pub open spec fn link_alt() -> Seq<char> {
    ".png\" alt=\""@
}

pub open spec fn link_icon_end() -> Seq<char> {
    "\" class=\"inline-icon\" />"@
}

pub open spec fn link_close() -> Seq<char> {
    "</a>"@
}

/// `<a href="/items/ID.html" class="item-link"><img src="/assets/images/items/ID.png"
/// alt="TEXT" class="inline-icon" />TEXT</a>`, and the same with `npcs` / `npc-link`.
pub open spec fn link(kind: Kind, id: Seq<char>, text: Seq<char>) -> Seq<char> {
    link_open(kind) + id + link_mid(kind) + id + link_alt() + text + link_icon_end() + text
        + link_close()
}

fn link_open_exec(kind: Kind) -> (r: &'static str)
    ensures
        r@ == link_open(kind),
{
    match kind {
        Kind::Item => "<a href=\"/items/",
        Kind::Npc => "<a href=\"/npcs/",
    }
}

fn link_mid_exec(kind: Kind) -> (r: &'static str)
    ensures
        r@ == link_mid(kind),
{
    match kind {
        Kind::Item => ".html\" class=\"item-link\"><img src=\"/assets/images/items/",
        Kind::Npc => ".html\" class=\"npc-link\"><img src=\"/assets/images/npcs/",
    }
}

/// Appends `link(kind, id, text)` to `out`.
fn push_link(out: &mut Vec<char>, kind: Kind, id: &Vec<char>, text: &Vec<char>)
    ensures
        final(out)@ == old(out)@ + link(kind, id@, text@),
{
    let ghost start = out@;
    push_str(out, link_open_exec(kind));
    push_range(out, id, 0, id.len());
    push_str(out, link_mid_exec(kind));
    push_range(out, id, 0, id.len());
    push_str(out, ".png\" alt=\"");
    push_range(out, text, 0, text.len());
    push_str(out, "\" class=\"inline-icon\" />");
    push_range(out, text, 0, text.len());
    push_str(out, "</a>");
    assert(id@.subrange(0, id@.len() as int) =~= id@);
    assert(text@.subrange(0, text@.len() as int) =~= text@);
    assert(out@ =~= start + link(kind, id@, text@));
}

/// A link to an item page, with its icon.
pub fn item_link(item_id: &str, display_text: &str) -> (r: String)
    ensures
        r@ == link(Kind::Item, item_id@, display_text@),
{
    let id = chars_of(item_id);
    let text = chars_of(display_text);
    let mut out: Vec<char> = Vec::new();
    push_link(&mut out, Kind::Item, &id, &text);
    string_from_chars(out.as_slice())
}

/// A link to an NPC page, with its icon.
pub fn npc_link(npc_id: &str, display_text: &str) -> (r: String)
    ensures
        r@ == link(Kind::Npc, npc_id@, display_text@),
{
    let id = chars_of(npc_id);
    let text = chars_of(display_text);
    let mut out: Vec<char> = Vec::new();
    push_link(&mut out, Kind::Npc, &id, &text);
    string_from_chars(out.as_slice())
}

// ---------------------------------------------------------------------------
// Display names

/// What `char::to_uppercase` yields for `c`.
pub uninterp spec fn char_uppercase(c: char) -> Seq<char>;

/// The ASCII upper case of an ASCII character.
pub open spec fn ascii_upper(c: char) -> char {
    if 'a' <= c <= 'z' {
        ((c as u32) - 32) as char
    } else {
        c
    }
}

/// `char::to_uppercase(c)`, collected.
/// Claims: the result is `char_uppercase(c)`; for an ASCII character it is the single
/// character that `to_ascii_uppercase` gives (std documents `to_uppercase` as upper-casing
/// ASCII characters in addition to the others). Nothing is claimed of other characters.
#[verifier::external_body]
fn char_to_uppercase(c: char) -> (r: Vec<char>)
    ensures
        r@ == char_uppercase(c),
        (c as u32) < 128 ==> r@ == seq![ascii_upper(c)],
{
    c.to_uppercase().collect()
}

/// The upper case of the first character of a word.
pub open spec fn upper_of(c: char) -> Seq<char> {
    if (c as u32) < 128 {
        seq![ascii_upper(c)]
    } else {
        char_uppercase(c)
    }
}

/// What position `i` of an id contributes to its display name: a `-` becomes a space,
/// the first character of each `-`-separated word is upper-cased, the rest is kept.
pub open spec fn display_piece(id: Seq<char>, i: int) -> Seq<char> {
    if id[i] == '-' {
        seq![' ']
    } else if i == 0 || id[i - 1] == '-' {
        upper_of(id[i])
    } else {
        seq![id[i]]
    }
}

pub open spec fn display_from(id: Seq<char>, i: int) -> Seq<char>
    decreases id.len() - i,
{
    if i >= id.len() || i < 0 {
        seq![]
    } else {
        display_piece(id, i) + display_from(id, i + 1)
    }
}

/// The display name of an id: the id split at `-`, each word with its first character
/// upper-cased, joined with spaces (`"iron-ore"` is `"Iron Ore"`).
pub open spec fn display_name(id: Seq<char>) -> Seq<char> {
    display_from(id, 0)
}

proof fn lemma_display_from_step(id: Seq<char>, i: int)
    requires
        0 <= i < id.len(),
    ensures
        display_from(id, i) == display_piece(id, i) + display_from(id, i + 1),
{
}

fn push_display_name(out: &mut Vec<char>, id: &Vec<char>, a: usize, b: usize)
    requires
        a <= b <= id.len(),
    ensures
        final(out)@ == old(out)@ + display_name(id@.subrange(a as int, b as int)),
{
    let ghost w = id@.subrange(a as int, b as int);
    let ghost start = out@;
    let mut i = a;
    while i < b
        invariant
            a <= i <= b <= id.len(),
            w == id@.subrange(a as int, b as int),
            out@ + display_from(w, i - a) == start + display_from(w, 0),
        decreases b - i,
    {
        let ghost prev = out@;
        let c = id[i];
        proof {
            lemma_display_from_step(w, i - a);
        }
        if c == '-' {
            out.push(' ');
        } else if i == a || id[i - 1] == '-' {
            let mut up = char_to_uppercase(c);
            out.append(&mut up);
        } else {
            out.push(c);
        }
        assert(out@ == prev + display_piece(w, i - a));
        assert(out@ + display_from(w, i - a + 1) =~= prev + (display_piece(w, i - a) + display_from(
            w,
            i - a + 1,
        )));
        i = i + 1;
    }
    assert(display_from(w, i - a) =~= Seq::<char>::empty());
    assert(out@ + Seq::<char>::empty() =~= out@);
}

/// Converts an id to a display name (e.g. `"iron-ore"` to `"Iron Ore"`).
pub fn id_to_display_name(id: &str) -> (r: String)
    ensures
        r@ == display_name(id@),
{
    let cs = chars_of(id);
    let mut out: Vec<char> = Vec::new();
    push_display_name(&mut out, &cs, 0, cs.len());
    assert(cs@.subrange(0, cs@.len() as int) =~= cs@);
    string_from_chars(out.as_slice())
}

// ---------------------------------------------------------------------------
// Rewriting passes

/// What a match at `i` is replaced by, with the end of the match.
pub open spec fn match_at(s: Seq<char>, i: int, kind: Kind, form: Form) -> Option<(int, Seq<char>)> {
    match form {
        Form::Verbose => match match_verbose(s, i, kind) {
            Some((e, id, text)) => Some((e, link(kind, id, text))),
            None => None,
        },
        Form::Short => match match_short(s, i, kind) {
            Some((e, id)) => Some((e, link(kind, id, display_name(id)))),
            None => None,
        },
    }
}

/// The rewrite of `s` from position `i` on: scanning left to right, each match is
/// replaced and scanning resumes after it; any other character is kept.
pub open spec fn rewrite_from(s: Seq<char>, i: int, kind: Kind, form: Form) -> Seq<char>
    decreases s.len() - i,
{
    if i < 0 || i >= s.len() {
        seq![]
    } else {
        match match_at(s, i, kind, form) {
            Some((e, rep)) => if i < e <= s.len() {
                rep + rewrite_from(s, e, kind, form)
            } else {
                seq![s[i]] + rewrite_from(s, i + 1, kind, form)
            },
            None => seq![s[i]] + rewrite_from(s, i + 1, kind, form),
        }
    }
}

/// Every match of one markup form in `s` replaced by its link.
pub open spec fn rewrite(s: Seq<char>, kind: Kind, form: Form) -> Seq<char> {
    rewrite_from(s, 0, kind, form)
}

/// The four passes in order: verbose items, verbose NPCs, shorthand items, shorthand NPCs.
pub open spec fn linkify(s: Seq<char>) -> Seq<char> {
    rewrite(
        rewrite(
            rewrite(rewrite(s, Kind::Item, Form::Verbose), Kind::Npc, Form::Verbose),
            Kind::Item,
            Form::Short,
        ),
        Kind::Npc,
        Form::Short,
    )
}

/// A match always ends after it starts and within the text.
pub proof fn lemma_match_bounds(s: Seq<char>, i: int, kind: Kind, form: Form)
    requires
        0 <= i < s.len(),
    ensures
        match_at(s, i, kind, form) matches Some((e, rep)) ==> i < e <= s.len(),
{
    reveal(match_verbose);
    reveal(match_short);
    let t = tag(kind);
    match form {
        Form::Verbose => {
            let after_tag = i + 1 + t.len();
            if occurs_at(s, i, seq!['<'] + t) {
                lemma_run_end(s, after_tag, CharClass::Space);
                let w = run_end(s, after_tag, CharClass::Space);
                if w + 6 <= s.len() {
                    lemma_run_end(s, w + 6, CharClass::Except('"'));
                    let q = run_end(s, w + 6, CharClass::Except('"'));
                    if q < s.len() {
                        lemma_run_end(s, q + 1, CharClass::Except('>'));
                        let g = run_end(s, q + 1, CharClass::Except('>'));
                        if g < s.len() {
                            lemma_run_end(s, g + 1, CharClass::Except('<'));
                        }
                    }
                }
            }
        },
        Form::Short => {
            if occurs_at(s, i, seq!['<'] + t + seq![':']) {
                lemma_run_end(s, i + 2 + t.len(), CharClass::Slug);
            }
        },
    }
}

fn in_class_exec(c: char, class: CharClass) -> (r: bool)
    ensures
        r == in_class(c, class),
{
    match class {
        CharClass::Space => {
            ('\u{9}' <= c && c <= '\u{d}') || c == ' ' || c == '\u{85}' || c == '\u{a0}' || c
                == '\u{1680}' || ('\u{2000}' <= c && c <= '\u{200a}') || c == '\u{2028}' || c
                == '\u{2029}' || c == '\u{202f}' || c == '\u{205f}' || c == '\u{3000}'
        },
        CharClass::Slug => ('a' <= c && c <= 'z') || ('0' <= c && c <= '9') || c == '-',
        CharClass::Except(x) => c != x,
    }
}

fn run_end_exec(s: &Vec<char>, start: usize, class: CharClass) -> (r: usize)
    requires
        start <= s.len(),
    ensures
        r == run_end(s@, start as int, class),
        start <= r <= s.len(),
{
    proof {
        lemma_run_end(s@, start as int, class);
    }
    let mut k = start;
    while k < s.len() && in_class_exec(s[k], class)
        invariant
            start <= k <= s.len(),
            run_end(s@, k as int, class) == run_end(s@, start as int, class),
        decreases s.len() - k,
    {
        k = k + 1;
    }
    k
}

fn tag_exec(kind: Kind) -> (r: Vec<char>)
    ensures
        r@ == tag(kind),
{
    match kind {
        Kind::Item => vec!['i', 't', 'e', 'm'],
        Kind::Npc => vec!['n', 'p', 'c'],
    }
}

/// The verbose match at `i`, as positions: end, id start, id end, text start, text end.
fn match_verbose_exec(s: &Vec<char>, i: usize, kind: Kind) -> (r: Option<
    (usize, usize, usize, usize, usize),
>)
    requires
        i < s.len(),
    ensures
        r is None ==> match_verbose(s@, i as int, kind) is None,
        r matches Some((e, a, b, c, d)) ==> {
            &&& a <= b <= s.len()
            &&& c <= d <= s.len()
            &&& match_verbose(s@, i as int, kind) == Some(
                (e as int, s@.subrange(a as int, b as int), s@.subrange(c as int, d as int)),
            )
        },
{
    reveal(match_verbose);
    let t = tag_exec(kind);
    let mut open: Vec<char> = vec!['<'];
    let mut t1 = t.clone();
    open.append(&mut t1);
    assert(open@ =~= seq!['<'] + tag(kind));
    if !occurs_at_exec(s, i, &open) {
        return None;
    }
    let after_tag = i + open.len();
    let w = run_end_exec(s, after_tag, CharClass::Space);
    let name_eq: Vec<char> = vec!['n', 'a', 'm', 'e', '=', '"'];
    if w == after_tag || !occurs_at_exec(s, w, &name_eq) {
        return None;
    }
    let id_start = w + 6;
    let q = run_end_exec(s, id_start, CharClass::Except('"'));
    if q == id_start || q >= s.len() {
        return None;
    }
    let g = run_end_exec(s, q + 1, CharClass::Except('>'));
    if g >= s.len() {
        return None;
    }
    let text_start = g + 1;
    let l = run_end_exec(s, text_start, CharClass::Except('<'));
    let mut close: Vec<char> = vec!['<', '/'];
    let mut t2 = t.clone();
    close.append(&mut t2);
    close.push('>');
    assert(close@ =~= seq!['<', '/'] + tag(kind) + seq!['>']);
    if occurs_at_exec(s, l, &close) {
        Some((l + close.len(), id_start, q, text_start, l))
    } else {
        None
    }
}

/// The shorthand match at `i`, as positions: end, id start, id end.
fn match_short_exec(s: &Vec<char>, i: usize, kind: Kind) -> (r: Option<(usize, usize, usize)>)
    requires
        i < s.len(),
    ensures
        r is None ==> match_short(s@, i as int, kind) is None,
        r matches Some((e, a, b)) ==> {
            &&& a <= b <= s.len()
            &&& match_short(s@, i as int, kind) == Some((e as int, s@.subrange(a as int, b as int)))
        },
{
    reveal(match_short);
    let mut open: Vec<char> = vec!['<'];
    let mut t = tag_exec(kind);
    open.append(&mut t);
    open.push(':');
    assert(open@ =~= seq!['<'] + tag(kind) + seq![':']);
    if !occurs_at_exec(s, i, &open) {
        return None;
    }
    let id_start = i + open.len();
    let r = run_end_exec(s, id_start, CharClass::Slug);
    if r > id_start && r < s.len() && s[r] == '>' {
        Some((r + 1, id_start, r))
    } else {
        None
    }
}

/// The match at `i`, if there is one: its end and its replacement.
fn replacement_at(s: &Vec<char>, i: usize, kind: Kind, form: Form) -> (r: Option<(usize, Vec<char>)>)
    requires
        i < s.len(),
    ensures
        r is None ==> match_at(s@, i as int, kind, form) is None,
        r matches Some((e, rep)) ==> match_at(s@, i as int, kind, form) == Some((e as int, rep@)),
{
    match form {
        Form::Verbose => match match_verbose_exec(s, i, kind) {
            Some((e, a, b, c, d)) => {
                let mut id: Vec<char> = Vec::new();
                push_range(&mut id, s, a, b);
                let mut text: Vec<char> = Vec::new();
                push_range(&mut text, s, c, d);
                let mut out: Vec<char> = Vec::new();
                push_link(&mut out, kind, &id, &text);
                assert(out@ =~= link(kind, id@, text@));
                Some((e, out))
            },
            None => None,
        },
        Form::Short => match match_short_exec(s, i, kind) {
            Some((e, a, b)) => {
                let mut id: Vec<char> = Vec::new();
                push_range(&mut id, s, a, b);
                let mut name: Vec<char> = Vec::new();
                push_display_name(&mut name, s, a, b);
                let mut out: Vec<char> = Vec::new();
                push_link(&mut out, kind, &id, &name);
                assert(out@ =~= link(kind, id@, name@));
                assert(name@ =~= display_name(id@));
                Some((e, out))
            },
            None => None,
        },
    }
}

proof fn lemma_rewrite_step(s: Seq<char>, i: int, kind: Kind, form: Form)
    requires
        0 <= i < s.len(),
    ensures
        match_at(s, i, kind, form) matches Some((e, rep)) ==> rewrite_from(s, i, kind, form) == rep
            + rewrite_from(s, e, kind, form),
        match_at(s, i, kind, form) is None ==> rewrite_from(s, i, kind, form) == seq![s[i]]
            + rewrite_from(s, i + 1, kind, form),
{
    lemma_match_bounds(s, i, kind, form);
}

/// Replaces every match of one markup form in `s`, scanning left to right.
pub fn rewrite_exec(s: &Vec<char>, kind: Kind, form: Form) -> (r: Vec<char>)
    ensures
        r@ == rewrite(s@, kind, form),
{
    let mut out: Vec<char> = Vec::new();
    let mut i: usize = 0;
    while i < s.len()
        invariant
            i <= s.len(),
            out@ + rewrite_from(s@, i as int, kind, form) == rewrite_from(s@, 0, kind, form),
        decreases s.len() - i,
    {
        let ghost prev = out@;
        proof {
            lemma_match_bounds(s@, i as int, kind, form);
            lemma_rewrite_step(s@, i as int, kind, form);
        }
        match replacement_at(s, i, kind, form) {
            Some((e, rep)) => {
                let mut rep = rep;
                let ghost r = rep@;
                out.append(&mut rep);
                assert(out@ + rewrite_from(s@, e as int, kind, form) =~= prev + (r + rewrite_from(
                    s@,
                    e as int,
                    kind,
                    form,
                )));
                i = e;
            },
            None => {
                out.push(s[i]);
                assert(out@ + rewrite_from(s@, i + 1, kind, form) =~= prev + (seq![s@[i as int]]
                    + rewrite_from(s@, i + 1, kind, form)));
                i = i + 1;
            },
        }
    }
    assert(out@ + Seq::<char>::empty() =~= out@);
    out
}

/// Converts item and NPC markup in `text` into links with icons.
pub fn linkify_references(text: &str) -> (r: String)
    ensures
        r@ == linkify(text@),
{
    let s0 = chars_of(text);
    let s1 = rewrite_exec(&s0, Kind::Item, Form::Verbose);
    let s2 = rewrite_exec(&s1, Kind::Npc, Form::Verbose);
    let s3 = rewrite_exec(&s2, Kind::Item, Form::Short);
    let s4 = rewrite_exec(&s3, Kind::Npc, Form::Short);
    string_from_chars(s4.as_slice())
}

// ---------------------------------------------------------------------------
// Item type links

/// What `str::to_lowercase` returns for `s`.
pub uninterp spec fn str_lowercase(s: Seq<char>) -> Seq<char>;

/// The ASCII lower case of an ASCII character.
pub open spec fn ascii_lower(c: char) -> char {
    if 'A' <= c <= 'Z' {
        ((c as u32) + 32) as char
    } else {
        c
    }
}

/// Whether every character of `s` is ASCII.
pub open spec fn all_ascii(s: Seq<char>) -> bool {
    forall|i: int| 0 <= i < s.len() ==> (#[trigger] s[i] as u32) < 128
}

/// `str::to_lowercase`.
/// Claims: the result is `str_lowercase(s)`; for an all-ASCII string it is the string
/// lower-cased character by character as `to_ascii_lowercase` does (std documents
/// `to_lowercase` as lower-casing ASCII characters in addition to the others).
/// Nothing is claimed of other strings.
#[verifier::external_body]
fn to_lowercase(s: &str) -> (r: String)
    ensures
        r@ == str_lowercase(s@),
        all_ascii(s@) ==> r@ == s@.map_values(|c: char| ascii_lower(c)),
{
    s.to_lowercase()
}

/// The lower case of `s` as the library uses it.
pub open spec fn lowercase_of(s: Seq<char>) -> Seq<char> {
    if all_ascii(s) {
        s.map_values(|c: char| ascii_lower(c))
    } else {
        str_lowercase(s)
    }
}

/// `<a href="/items/?type=SLUG" class="type-link">TYPE</a>`, where SLUG is the lower-cased
/// type with spaces turned into `-`.
pub open spec fn type_link(item_type: Seq<char>, lowered: Seq<char>) -> Seq<char> {
    "<a href=\"/items/?type="@ + replace_char(lowered, ' ', '-') + "\" class=\"type-link\">"@
        + item_type + "</a>"@
}

/// The type link for `item_type`, given its lower case `lowered`.
pub fn type_link_from_lowercase(item_type: &str, lowered: &str) -> (r: String)
    ensures
        r@ == type_link(item_type@, lowered@),
{
    let low = chars_of(lowered);
    let slug = replace_char_exec(&low, ' ', '-');
    let mut out: Vec<char> = Vec::new();
    push_str(&mut out, "<a href=\"/items/?type=");
    push_range(&mut out, &slug, 0, slug.len());
    push_str(&mut out, "\" class=\"type-link\">");
    push_str(&mut out, item_type);
    push_str(&mut out, "</a>");
    assert(slug@.subrange(0, slug@.len() as int) =~= slug@);
    assert(out@ =~= type_link(item_type@, lowered@));
    string_from_chars(out.as_slice())
}

/// A link to the item list filtered by `item_type`.
pub fn item_type_link(item_type: &str) -> (r: String)
    ensures
        r@ == type_link(item_type@, lowercase_of(item_type@)),
{
    let lowered = to_lowercase(item_type);
    type_link_from_lowercase(item_type, lowered.as_str())
}

/// The slug of a type link is the lower-cased type with every space turned into `-`:
/// it has the lower case's length, holds no space, and keeps every other character in
/// place.
pub proof fn law_type_link_slug(item_type: Seq<char>, lowered: Seq<char>)
    ensures
        exists|slug: Seq<char>|
            {
                &&& type_link(item_type, lowered) == "<a href=\"/items/?type="@ + slug
                    + "\" class=\"type-link\">"@ + item_type + "</a>"@
                &&& slug.len() == lowered.len()
                &&& forall|k: int|
                    0 <= k < slug.len() ==> #[trigger] slug[k] == (if lowered[k] == ' ' {
                        '-'
                    } else {
                        lowered[k]
                    })
                &&& forall|k: int| 0 <= k < slug.len() ==> #[trigger] slug[k] != ' '
            },
{
    let slug = replace_char(lowered, ' ', '-');
    assert(slug.len() == lowered.len());
}

// ---------------------------------------------------------------------------
// Template filters

/// What the `linkify` template filter makes of a value: a string value is linkified
/// (`Some`); any other value is left as it is (`None`).
pub fn linkify_filter_value(value: Option<&str>) -> (r: Option<String>)
    ensures
        match value {
            Some(s) => r matches Some(o) && o@ == linkify(s@),
            None => r is None,
        },
{
    match value {
        Some(s) => Some(linkify_references(s)),
        None => None,
    }
}

/// What the `type_link` template filter makes of a value: a string value becomes an
/// item type link (`Some`); any other value is left as it is (`None`).
pub fn type_link_filter_value(value: Option<&str>) -> (r: Option<String>)
    ensures
        match value {
            Some(s) => r matches Some(o) && o@ == type_link(s@, lowercase_of(s@)),
            None => r is None,
        },
{
    match value {
        Some(s) => Some(item_type_link(s)),
        None => None,
    }
}

// ---------------------------------------------------------------------------
// Laws

proof fn lemma_no_match_without_open(s: Seq<char>, i: int, kind: Kind, form: Form)
    requires
        0 <= i < s.len(),
        s[i] != '<',
    ensures
        match_at(s, i, kind, form) is None,
{
    reveal(match_verbose);
    reveal(match_short);
    let t = tag(kind);
    if occurs_at(s, i, seq!['<'] + t) {
        assert(s.subrange(i, i + 1 + t.len())[0] == s[i]);
    }
    if occurs_at(s, i, seq!['<'] + t + seq![':']) {
        assert(s.subrange(i, i + 2 + t.len())[0] == s[i]);
    }
}

proof fn lemma_rewrite_plain(s: Seq<char>, i: int, kind: Kind, form: Form)
    requires
        0 <= i <= s.len(),
        forall|k: int| 0 <= k < s.len() ==> s[k] != '<',
    ensures
        rewrite_from(s, i, kind, form) == s.skip(i),
    decreases s.len() - i,
{
    if i < s.len() {
        lemma_no_match_without_open(s, i, kind, form);
        lemma_rewrite_plain(s, i + 1, kind, form);
        assert(s.skip(i) =~= seq![s[i]] + s.skip(i + 1));
    } else {
        assert(s.skip(i) =~= Seq::<char>::empty());
    }
}

/// Text without any `<` holds no markup: linkifying leaves it unchanged.
pub proof fn law_plain_text_unchanged(s: Seq<char>)
    requires
        forall|k: int| 0 <= k < s.len() ==> s[k] != '<',
    ensures
        linkify(s) == s,
{
    assert(s.skip(0) =~= s);
    lemma_rewrite_plain(s, 0, Kind::Item, Form::Verbose);
    lemma_rewrite_plain(s, 0, Kind::Npc, Form::Verbose);
    lemma_rewrite_plain(s, 0, Kind::Item, Form::Short);
    lemma_rewrite_plain(s, 0, Kind::Npc, Form::Short);
}

// ---------------------------------------------------------------------------
// Laws on whole texts

/// Scanning over a stretch without `<` keeps it as it is.
proof fn lemma_rewrite_region(s: Seq<char>, i: int, j: int, kind: Kind, form: Form)
    requires
        0 <= i <= j <= s.len(),
        forall|k: int| i <= k < j ==> s[k] != '<',
    ensures
        rewrite_from(s, i, kind, form) == s.subrange(i, j) + rewrite_from(s, j, kind, form),
    decreases j - i,
{
    if i < j {
        lemma_no_match_without_open(s, i, kind, form);
        lemma_rewrite_step(s, i, kind, form);
        lemma_rewrite_region(s, i + 1, j, kind, form);
        assert(s.subrange(i, j) =~= seq![s[i]] + s.subrange(i + 1, j));
    } else {
        assert(s.subrange(i, j) =~= Seq::<char>::empty());
    }
}

/// A text in which no position matches is kept as it is.
proof fn lemma_rewrite_none(s: Seq<char>, i: int, kind: Kind, form: Form)
    requires
        0 <= i <= s.len(),
        forall|k: int| 0 <= k < s.len() ==> (#[trigger] match_at(s, k, kind, form)) is None,
    ensures
        rewrite_from(s, i, kind, form) == s.skip(i),
    decreases s.len() - i,
{
    if i < s.len() {
        lemma_rewrite_step(s, i, kind, form);
        lemma_rewrite_none(s, i + 1, kind, form);
        assert(s.skip(i) =~= seq![s[i]] + s.skip(i + 1));
    } else {
        assert(s.skip(i) =~= Seq::<char>::empty());
    }
}

/// A run of class characters ended by one outside the class (or by the end).
proof fn lemma_run_end_exact(s: Seq<char>, a: int, b: int, class: CharClass)
    requires
        0 <= a <= b <= s.len(),
        forall|k: int| a <= k < b ==> in_class(#[trigger] s[k], class),
        b == s.len() || !in_class(s[b], class),
    ensures
        run_end(s, a, class) == b,
    decreases b - a,
{
    if a < b {
        lemma_run_end_exact(s, a + 1, b, class);
    }
}

/// Every `<` of `s` is followed by a character other than `c`.
pub open spec fn opens_not_followed_by(s: Seq<char>, c: char) -> bool {
    forall|k: int| 0 <= k < s.len() && #[trigger] s[k] == '<' ==> k + 1 < s.len() && s[k + 1] != c
}

proof fn lemma_opens_concat(a: Seq<char>, b: Seq<char>, c: char)
    requires
        opens_not_followed_by(a, c),
        opens_not_followed_by(b, c),
    ensures
        opens_not_followed_by(a + b, c),
{
    let s = a + b;
    assert forall|k: int| 0 <= k < s.len() && #[trigger] s[k] == '<' implies k + 1 < s.len() && s[k
        + 1] != c by {
        if k < a.len() {
            assert(s[k] == a[k]);
            assert(s[k + 1] == a[k + 1]);
        } else {
            assert(s[k] == b[k - a.len()]);
            assert(s[k + 1] == b[k + 1 - a.len()]);
        }
    }
}

/// No reference of a kind whose tag does not start with `c` begins where every `<` is
/// followed by something else than `c`.
proof fn lemma_no_match_opens(s: Seq<char>, kind: Kind, form: Form)
    requires
        opens_not_followed_by(s, tag(kind)[0]),
    ensures
        forall|k: int| 0 <= k < s.len() ==> (#[trigger] match_at(s, k, kind, form)) is None,
{
    assert forall|k: int| 0 <= k < s.len() implies (#[trigger] match_at(s, k, kind, form)) is None by {
        if s[k] == '<' {
            reveal(match_verbose);
            reveal(match_short);
            let t = tag(kind);
            if occurs_at(s, k, seq!['<'] + t) {
                assert(s.subrange(k, k + 1 + t.len())[1] == s[k + 1]);
            }
            if occurs_at(s, k, seq!['<'] + t + seq![':']) {
                assert(s.subrange(k, k + 2 + t.len())[1] == s[k + 1]);
            }
        } else {
            lemma_no_match_without_open(s, k, kind, form);
        }
    }
}

/// Whether `s` holds no `<`.
pub open spec fn no_open(s: Seq<char>) -> bool {
    forall|k: int| 0 <= k < s.len() ==> #[trigger] s[k] != '<'
}

proof fn lemma_link_opens(kind: Kind, id: Seq<char>, text: Seq<char>)
    requires
        no_open(id),
        no_open(text),
    ensures
        opens_not_followed_by(link(kind, id, text), 'n'),
{
    reveal_strlit("<a href=\"/items/");
    reveal_strlit("<a href=\"/npcs/");
    reveal_strlit(".html\" class=\"item-link\"><img src=\"/assets/images/items/");
    reveal_strlit(".html\" class=\"npc-link\"><img src=\"/assets/images/npcs/");
    reveal_strlit(".png\" alt=\"");
    reveal_strlit("\" class=\"inline-icon\" />");
    reveal_strlit("</a>");
    let o = link_open(kind);
    let m = link_mid(kind);
    assert(opens_not_followed_by(o, 'n'));
    assert(opens_not_followed_by(m, 'n'));
    assert(opens_not_followed_by(link_alt(), 'n'));
    assert(opens_not_followed_by(link_icon_end(), 'n'));
    assert(opens_not_followed_by(link_close(), 'n'));
    assert(opens_not_followed_by(id, 'n'));
    assert(opens_not_followed_by(text, 'n'));
    lemma_opens_concat(o, id, 'n');
    lemma_opens_concat(o + id, m, 'n');
    lemma_opens_concat(o + id + m, id, 'n');
    lemma_opens_concat(o + id + m + id, link_alt(), 'n');
    lemma_opens_concat(o + id + m + id + link_alt(), text, 'n');
    lemma_opens_concat(o + id + m + id + link_alt() + text, link_icon_end(), 'n');
    lemma_opens_concat(o + id + m + id + link_alt() + text + link_icon_end(), text, 'n');
    lemma_opens_concat(
        o + id + m + id + link_alt() + text + link_icon_end() + text,
        link_close(),
        'n',
    );
}

/// Whether `id` is a shorthand id: a non-empty run of `a-z0-9-`.
pub open spec fn is_slug(id: Seq<char>) -> bool {
    id.len() > 0 && forall|k: int| 0 <= k < id.len() ==> is_slug_char(#[trigger] id[k])
}

proof fn lemma_display_from_no_open(id: Seq<char>, i: int)
    requires
        forall|k: int| 0 <= k < id.len() ==> is_slug_char(#[trigger] id[k]),
        0 <= i,
    ensures
        no_open(display_from(id, i)),
    decreases id.len() - i,
{
    if i < id.len() {
        lemma_display_from_no_open(id, i + 1);
        let c = id[i];
        assert(is_slug_char(c));
        let piece = display_piece(id, i);
        assert(no_open(piece)) by {
            if c != '-' && (i == 0 || id[i - 1] == '-') {
                assert((c as u32) < 128);
                assert(piece == seq![ascii_upper(c)]);
                if 'a' <= c <= 'z' {
                    assert(ascii_upper(c) as u32 == (c as u32) - 32);
                }
                assert(ascii_upper(c) != '<');
            }
        }
        let rest = display_from(id, i + 1);
        assert forall|k: int| 0 <= k < (piece + rest).len() implies #[trigger] (piece + rest)[k]
            != '<' by {
            if k < piece.len() {
                assert((piece + rest)[k] == piece[k]);
            } else {
                assert((piece + rest)[k] == rest[k - piece.len()]);
            }
        }
    }
}

/// `<tag:id>`.
pub open spec fn short_ref(kind: Kind, id: Seq<char>) -> Seq<char> {
    seq!['<'] + tag(kind) + seq![':'] + id + seq!['>']
}

/// In `p` followed by a shorthand reference, the only `<` opens the reference, and the
/// reference matches there.
proof fn lemma_short_block(p: Seq<char>, kind: Kind, x: Seq<char>)
    requires
        no_open(p),
        is_slug(x),
    ensures
        ({
            let b = p + short_ref(kind, x);
            &&& forall|k: int| 0 <= k < b.len() && #[trigger] b[k] == '<' ==> k == p.len()
            &&& b.len() == p.len() + tag(kind).len() + 3 + x.len()
            &&& occurs_at(b, p.len() as int, seq!['<'] + tag(kind))
            &&& b[p.len() + 1int] == tag(kind)[0]
            &&& b[p.len() + 1 + tag(kind).len() as int] == ':'
            &&& b.subrange(0, p.len() as int) == p
        }),
{
    let t = tag(kind);
    let r = short_ref(kind, x);
    let b = p + r;
    let n = p.len() as int;
    assert(r.len() == t.len() + 3 + x.len());
    assert forall|k: int| 0 <= k < b.len() && #[trigger] b[k] == '<' implies k == n by {
        if k < n {
            assert(b[k] == p[k]);
        } else if k > n {
            assert(b[k] == r[k - n]);
            let j = k - n;
            if j <= t.len() {
                assert(r[j] == t[j - 1]);
            } else if j == t.len() + 1 {
                assert(r[j] == ':');
            } else if j < t.len() + 2 + x.len() {
                assert(r[j] == x[j - t.len() - 2]);
                assert(is_slug_char(x[j - t.len() - 2]));
            } else {
                assert(r[j] == '>');
            }
        }
    }
    assert(b.subrange(n, n + 1 + t.len()) =~= seq!['<'] + t);
    assert(b.subrange(0, n) =~= p);
}

/// A shorthand reference written at `i` matches there, in full.
proof fn lemma_short_match(s: Seq<char>, i: int, kind: Kind, x: Seq<char>)
    requires
        is_slug(x),
        0 <= i,
        i + short_ref(kind, x).len() <= s.len(),
        s.subrange(i, i + short_ref(kind, x).len()) == short_ref(kind, x),
    ensures
        match_at(s, i, kind, Form::Short) == Some(
            (i + short_ref(kind, x).len(), link(kind, x, display_name(x))),
        ),
{
    reveal(match_short);
    let t = tag(kind);
    let r = short_ref(kind, x);
    let open = seq!['<'] + t + seq![':'];
    let id_start = i + open.len();
    let id_end = id_start + x.len();
    assert(r.len() == open.len() + x.len() + 1);
    assert forall|k: int| i <= k < i + r.len() implies s[k] == #[trigger] r[k - i] by {
        assert(s.subrange(i, i + r.len())[k - i] == s[k]);
    }
    assert(s.subrange(i, i + open.len()) =~= open) by {
        assert forall|k: int| 0 <= k < open.len() implies s.subrange(i, i + open.len())[k]
            == open[k] by {
            assert(r[k] == open[k]);
            assert(s[i + k] == r[k]);
        }
    }
    assert forall|k: int| id_start <= k < id_end implies in_class(#[trigger] s[k], CharClass::Slug) by {
        assert(s[k] == r[k - i]);
        assert(r[k - i] == x[k - id_start]);
    }
    assert(s[id_end] == r[id_end - i]);
    assert(r[id_end - i] == '>');
    lemma_run_end_exact(s, id_start, id_end, CharClass::Slug);
    assert(s.subrange(id_start, id_end) =~= x) by {
        assert forall|k: int| 0 <= k < x.len() implies s.subrange(id_start, id_end)[k] == x[k] by {
            assert(s[id_start + k] == r[id_start + k - i]);
        }
    }
}

/// The positions of a text made of two shorthand references, each after a stretch of
/// plain text.
proof fn lemma_two_short_layout(p: Seq<char>, q: Seq<char>, kind: Kind, x: Seq<char>, y: Seq<char>)
    requires
        no_open(p),
        no_open(q),
        is_slug(x),
        is_slug(y),
    ensures
        ({
            let r1 = short_ref(kind, x);
            let r2 = short_ref(kind, y);
            let s = p + r1 + q + r2;
            let p1 = p.len() as int;
            let e1 = p1 + r1.len();
            let p2 = e1 + q.len();
            &&& s.len() == p2 + r2.len()
            &&& forall|k: int| 0 <= k < p1 ==> s[k] == p[k]
            &&& s.subrange(p1, e1) == r1
            &&& forall|k: int| e1 <= k < p2 ==> s[k] == q[k - e1]
            &&& s.subrange(p2, p2 + r2.len()) == r2
            &&& forall|k: int| 0 <= k < s.len() && #[trigger] s[k] == '<' ==> k == p1 || k == p2
        }),
{
    let r1 = short_ref(kind, x);
    let r2 = short_ref(kind, y);
    let b1 = p + r1;
    let b2 = q + r2;
    let s = p + r1 + q + r2;
    lemma_short_block(p, kind, x);
    lemma_short_block(q, kind, y);
    assert(s =~= b1 + b2);
    let p1 = p.len() as int;
    let e1 = p1 + r1.len();
    let p2 = e1 + q.len();
    assert(s.subrange(p1, e1) =~= r1);
    assert(s.subrange(p2, p2 + r2.len()) =~= r2);
    assert forall|k: int| 0 <= k < s.len() && #[trigger] s[k] == '<' implies k == p1 || k == p2 by {
        if k < e1 {
            assert(s[k] == b1[k]);
        } else {
            assert(s[k] == b2[k - e1]);
        }
    }
}

/// Where `tag` is followed by `:`, no verbose reference begins.
proof fn lemma_verbose_none_before_colon(s: Seq<char>, k: int, kind: Kind)
    requires
        0 <= k,
        k + 1 + tag(kind).len() < s.len(),
        s[k + 1 + tag(kind).len()] == ':',
    ensures
        match_at(s, k, kind, Form::Verbose) is None,
{
    reveal(match_verbose);
}

/// Two shorthand references of one kind, each after plain text, are both replaced by
/// their links in that kind's shorthand pass.
proof fn lemma_two_short_rewrite(p: Seq<char>, q: Seq<char>, kind: Kind, x: Seq<char>, y: Seq<char>)
    requires
        no_open(p),
        no_open(q),
        is_slug(x),
        is_slug(y),
    ensures
        rewrite(p + short_ref(kind, x) + q + short_ref(kind, y), kind, Form::Short) == p + link(
            kind,
            x,
            display_name(x),
        ) + q + link(kind, y, display_name(y)),
{
    let r1 = short_ref(kind, x);
    let r2 = short_ref(kind, y);
    let s = p + r1 + q + r2;
    let p1 = p.len() as int;
    let e1 = p1 + r1.len();
    let p2 = e1 + q.len();
    let e2 = p2 + r2.len();
    let l1 = link(kind, x, display_name(x));
    let l2 = link(kind, y, display_name(y));
    lemma_two_short_layout(p, q, kind, x, y);
    lemma_rewrite_region(s, 0, p1, kind, Form::Short);
    assert(s.subrange(0, p1) =~= p);
    lemma_short_match(s, p1, kind, x);
    lemma_rewrite_step(s, p1, kind, Form::Short);
    lemma_rewrite_region(s, e1, p2, kind, Form::Short);
    assert(s.subrange(e1, p2) =~= q);
    lemma_short_match(s, p2, kind, y);
    lemma_rewrite_step(s, p2, kind, Form::Short);
    assert(rewrite_from(s, e2, kind, Form::Short) == Seq::<char>::empty());
    assert(rewrite(s, kind, Form::Short) =~= p + l1 + q + l2);
}

proof fn lemma_slug_no_open(x: Seq<char>)
    requires
        is_slug(x),
    ensures
        no_open(x),
        no_open(display_name(x)),
{
    assert forall|k: int| 0 <= k < x.len() implies #[trigger] x[k] != '<' by {
        assert(is_slug_char(x[k]));
    }
    lemma_display_from_no_open(x, 0);
}

proof fn lemma_no_open_opens(s: Seq<char>, c: char)
    requires
        no_open(s),
    ensures
        opens_not_followed_by(s, c),
{
}

/// The text of two shorthand references after plain text, and what passes before their
/// own leave it as it is.
proof fn lemma_two_short_untouched(p: Seq<char>, q: Seq<char>, kind: Kind, x: Seq<char>, y: Seq<char>, other: Kind)
    requires
        no_open(p),
        no_open(q),
        is_slug(x),
        is_slug(y),
        other != kind,
    ensures
        ({
            let s = p + short_ref(kind, x) + q + short_ref(kind, y);
            &&& rewrite(s, kind, Form::Verbose) == s
            &&& rewrite(s, other, Form::Verbose) == s
            &&& rewrite(s, other, Form::Short) == s
        }),
{
    let r1 = short_ref(kind, x);
    let r2 = short_ref(kind, y);
    let s = p + r1 + q + r2;
    let t = tag(kind);
    let p1 = p.len() as int;
    let e1 = p1 + r1.len();
    let p2 = e1 + q.len();
    lemma_two_short_layout(p, q, kind, x, y);
    assert(s[p1 + 1] == r1[1]);
    assert(s[p2 + 1] == r2[1]);
    assert(s[p1 + 1 + t.len()] == r1[1 + t.len() as int]);
    assert(s[p2 + 1 + t.len()] == r2[1 + t.len() as int]);
    assert forall|k: int| 0 <= k < s.len() implies (#[trigger] match_at(s, k, kind, Form::Verbose)) is None by {
        if s[k] == '<' {
            lemma_verbose_none_before_colon(s, k, kind);
        } else {
            lemma_no_match_without_open(s, k, kind, Form::Verbose);
        }
    }
    lemma_rewrite_none(s, 0, kind, Form::Verbose);
    assert(tag(other)[0] != tag(kind)[0]);
    assert(opens_not_followed_by(s, tag(other)[0]));
    lemma_no_match_opens(s, other, Form::Verbose);
    lemma_no_match_opens(s, other, Form::Short);
    lemma_rewrite_none(s, 0, other, Form::Verbose);
    lemma_rewrite_none(s, 0, other, Form::Short);
    assert(s.skip(0) =~= s);
}

/// Every shorthand item reference is linked, wherever it stands: in plain text `p`,
/// `<item:x>`, plain text `q`, `<item:y>`, both references become item links named by
/// their ids' display names, and the text around them stays.
pub proof fn law_every_item_shorthand_linked(p: Seq<char>, q: Seq<char>, x: Seq<char>, y: Seq<char>)
    requires
        no_open(p),
        no_open(q),
        is_slug(x),
        is_slug(y),
    ensures
        linkify(
            p + seq!['<', 'i', 't', 'e', 'm', ':'] + x + seq!['>'] + q + seq!['<', 'i', 't', 'e', 'm', ':']
                + y + seq!['>'],
        ) == p + link(Kind::Item, x, display_name(x)) + q + link(Kind::Item, y, display_name(y)),
{
    let s = p + short_ref(Kind::Item, x) + q + short_ref(Kind::Item, y);
    assert(p + seq!['<', 'i', 't', 'e', 'm', ':'] + x + seq!['>'] + q + seq![
        '<',
        'i',
        't',
        'e',
        'm',
        ':',
    ] + y + seq!['>'] =~= s);
    lemma_two_short_untouched(p, q, Kind::Item, x, y, Kind::Npc);
    lemma_two_short_rewrite(p, q, Kind::Item, x, y);
    let l1 = link(Kind::Item, x, display_name(x));
    let l2 = link(Kind::Item, y, display_name(y));
    let out = p + l1 + q + l2;
    lemma_slug_no_open(x);
    lemma_slug_no_open(y);
    lemma_link_opens(Kind::Item, x, display_name(x));
    lemma_link_opens(Kind::Item, y, display_name(y));
    lemma_no_open_opens(p, 'n');
    lemma_no_open_opens(q, 'n');
    lemma_opens_concat(p, l1, 'n');
    lemma_opens_concat(p + l1, q, 'n');
    lemma_opens_concat(p + l1 + q, l2, 'n');
    lemma_no_match_opens(out, Kind::Npc, Form::Short);
    lemma_rewrite_none(out, 0, Kind::Npc, Form::Short);
    assert(out.skip(0) =~= out);
}

/// Every shorthand NPC reference is linked, wherever it stands: in plain text `p`,
/// `<npc:x>`, plain text `q`, `<npc:y>`, both references become NPC links named by their
/// ids' display names, and the text around them stays.
pub proof fn law_every_npc_shorthand_linked(p: Seq<char>, q: Seq<char>, x: Seq<char>, y: Seq<char>)
    requires
        no_open(p),
        no_open(q),
        is_slug(x),
        is_slug(y),
    ensures
        linkify(
            p + seq!['<', 'n', 'p', 'c', ':'] + x + seq!['>'] + q + seq!['<', 'n', 'p', 'c', ':'] + y
                + seq!['>'],
        ) == p + link(Kind::Npc, x, display_name(x)) + q + link(Kind::Npc, y, display_name(y)),
{
    let s = p + short_ref(Kind::Npc, x) + q + short_ref(Kind::Npc, y);
    assert(p + seq!['<', 'n', 'p', 'c', ':'] + x + seq!['>'] + q + seq!['<', 'n', 'p', 'c', ':'] + y
        + seq!['>'] =~= s);
    lemma_two_short_untouched(p, q, Kind::Npc, x, y, Kind::Item);
    lemma_two_short_rewrite(p, q, Kind::Npc, x, y);
}

/// `<tag name="id">text</tag>`.
pub open spec fn verbose_ref(kind: Kind, id: Seq<char>, text: Seq<char>) -> Seq<char> {
    seq!['<'] + tag(kind) + seq![' ', 'n', 'a', 'm', 'e', '=', '"'] + id + seq!['"', '>'] + text
        + seq!['<', '/'] + tag(kind) + seq!['>']
}

/// Whether `id` can stand as the id of a verbose reference that later passes leave
/// alone: non-empty, without `"` and without `<`.
pub open spec fn is_plain_id(id: Seq<char>) -> bool {
    id.len() > 0 && no_open(id) && forall|k: int| 0 <= k < id.len() ==> #[trigger] id[k] != '"'
}

/// A verbose reference written at `i` matches there, in full.
proof fn lemma_verbose_match(s: Seq<char>, i: int, kind: Kind, x: Seq<char>, t: Seq<char>)
    requires
        is_plain_id(x),
        no_open(t),
        0 <= i,
        i + verbose_ref(kind, x, t).len() <= s.len(),
        s.subrange(i, i + verbose_ref(kind, x, t).len()) == verbose_ref(kind, x, t),
    ensures
        match_at(s, i, kind, Form::Verbose) == Some(
            (i + verbose_ref(kind, x, t).len(), link(kind, x, t)),
        ),
{
    reveal(match_verbose);
    let tg = tag(kind);
    let r = verbose_ref(kind, x, t);
    let n = tg.len() as int;
    let open = seq!['<'] + tg;
    let name_eq = seq!['n', 'a', 'm', 'e', '=', '"'];
    let close = seq!['<', '/'] + tg + seq!['>'];
    let after_tag = i + 1 + n;
    let w = after_tag + 1;
    let id_start = w + 6;
    let q = id_start + x.len();
    let text_start = q + 2;
    let l = text_start + t.len();
    assert(r.len() == l - i + close.len());
    assert forall|k: int| i <= k < i + r.len() implies s[k] == #[trigger] r[k - i] by {
        assert(s.subrange(i, i + r.len())[k - i] == s[k]);
    }
    assert(s.subrange(i, i + open.len()) =~= open) by {
        assert forall|k: int| 0 <= k < open.len() implies s.subrange(i, i + open.len())[k]
            == open[k] by {
            assert(s[i + k] == r[k]);
        }
    }
    assert(s[after_tag] == r[1 + n]);
    assert(s[w] == r[2 + n]);
    lemma_run_end_exact(s, after_tag, w, CharClass::Space);
    assert(s.subrange(w, w + 6) =~= name_eq) by {
        assert forall|k: int| 0 <= k < 6 implies s.subrange(w, w + 6)[k] == name_eq[k] by {
            assert(s[w + k] == r[w + k - i]);
        }
    }
    assert forall|k: int| id_start <= k < q implies in_class(#[trigger] s[k], CharClass::Except('"')) by {
        assert(s[k] == r[k - i]);
        assert(r[k - i] == x[k - id_start]);
    }
    assert(s[q] == r[q - i]);
    lemma_run_end_exact(s, id_start, q, CharClass::Except('"'));
    assert(s[q + 1] == r[q + 1 - i]);
    lemma_run_end_exact(s, q + 1, q + 1, CharClass::Except('>'));
    assert forall|k: int| text_start <= k < l implies in_class(#[trigger] s[k], CharClass::Except('<')) by {
        assert(s[k] == r[k - i]);
        assert(r[k - i] == t[k - text_start]);
    }
    assert(s[l] == r[l - i]);
    lemma_run_end_exact(s, text_start, l, CharClass::Except('<'));
    assert(s.subrange(l, l + close.len()) =~= close) by {
        assert forall|k: int| 0 <= k < close.len() implies s.subrange(l, l + close.len())[k]
            == close[k] by {
            assert(s[l + k] == r[l + k - i]);
        }
    }
    assert(s.subrange(id_start, q) =~= x) by {
        assert forall|k: int| 0 <= k < x.len() implies s.subrange(id_start, q)[k] == x[k] by {
            assert(s[id_start + k] == r[id_start + k - i]);
        }
    }
    assert(s.subrange(text_start, l) =~= t) by {
        assert forall|k: int| 0 <= k < t.len() implies s.subrange(text_start, l)[k] == t[k] by {
            assert(s[text_start + k] == r[text_start + k - i]);
        }
    }
}

/// Plain text, a block, plain text, a block: where each part lies.
proof fn lemma_four_parts(p: Seq<char>, r1: Seq<char>, q: Seq<char>, r2: Seq<char>)
    ensures
        ({
            let s = p + r1 + q + r2;
            let p1 = p.len() as int;
            let e1 = p1 + r1.len();
            let p2 = e1 + q.len();
            &&& s.len() == p2 + r2.len()
            &&& forall|k: int| 0 <= k < p1 ==> s[k] == p[k]
            &&& s.subrange(p1, e1) == r1
            &&& forall|k: int| e1 <= k < p2 ==> s[k] == q[k - e1]
            &&& s.subrange(p2, p2 + r2.len()) == r2
        }),
{
    let s = p + r1 + q + r2;
    let p1 = p.len() as int;
    let e1 = p1 + r1.len();
    let p2 = e1 + q.len();
    assert(s.subrange(p1, e1) =~= r1);
    assert(s.subrange(p2, p2 + r2.len()) =~= r2);
}

/// Plain text up to a match, then the match: the text is kept and the match replaced.
proof fn lemma_plain_then_match(s: Seq<char>, start: int, i: int, kind: Kind, form: Form)
    requires
        0 <= start <= i < s.len(),
        forall|k: int| start <= k < i ==> s[k] != '<',
        match_at(s, i, kind, form) is Some,
    ensures
        match match_at(s, i, kind, form) {
            Some((e, rep)) => rewrite_from(s, start, kind, form) == s.subrange(start, i) + rep
                + rewrite_from(s, e, kind, form),
            None => true,
        },
{
    lemma_rewrite_region(s, start, i, kind, form);
    lemma_rewrite_step(s, i, kind, form);
}

/// Two blocks that each match in full, after plain text, are both replaced.
proof fn lemma_two_blocks_rewrite(
    p: Seq<char>,
    r1: Seq<char>,
    q: Seq<char>,
    r2: Seq<char>,
    l1: Seq<char>,
    l2: Seq<char>,
    kind: Kind,
    form: Form,
)
    requires
        no_open(p),
        no_open(q),
        r1.len() > 0,
        r2.len() > 0,
        match_at(p + r1 + q + r2, p.len() as int, kind, form) == Some(
            ((p.len() + r1.len()) as int, l1),
        ),
        match_at(p + r1 + q + r2, (p.len() + r1.len() + q.len()) as int, kind, form) == Some(
            ((p.len() + r1.len() + q.len() + r2.len()) as int, l2),
        ),
    ensures
        rewrite(p + r1 + q + r2, kind, form) == p + l1 + q + l2,
{
    let s = p + r1 + q + r2;
    let p1 = p.len() as int;
    let e1 = p1 + r1.len();
    let p2 = e1 + q.len();
    let e2 = p2 + r2.len();
    lemma_four_parts(p, r1, q, r2);
    assert forall|k: int| 0 <= k < p1 implies s[k] != '<' by {
        assert(s[k] == p[k]);
    }
    assert forall|k: int| e1 <= k < p2 implies s[k] != '<' by {
        assert(s[k] == q[k - e1]);
    }
    lemma_plain_then_match(s, 0, p1, kind, form);
    lemma_plain_then_match(s, e1, p2, kind, form);
    assert(s.subrange(0, p1) =~= p);
    assert(s.subrange(e1, p2) =~= q);
    lemma_assemble(
        p,
        l1,
        q,
        l2,
        rewrite_from(s, 0, kind, form),
        rewrite_from(s, e1, kind, form),
        rewrite_from(s, e2, kind, form),
    );
}

proof fn lemma_assemble(
    p: Seq<char>,
    l1: Seq<char>,
    q: Seq<char>,
    l2: Seq<char>,
    a: Seq<char>,
    b: Seq<char>,
    c: Seq<char>,
)
    requires
        a == p + l1 + b,
        b == q + l2 + c,
        c.len() == 0,
    ensures
        a == p + l1 + q + l2,
{
    assert(c =~= Seq::<char>::empty());
    assert(q + l2 + c =~= q + l2);
    assert(p + l1 + (q + l2) =~= p + l1 + q + l2);
}

/// Every `<` of `s` is followed by two characters other than `c1` then `c2`.
pub open spec fn opens_not_followed_by2(s: Seq<char>, c1: char, c2: char) -> bool {
    forall|k: int|
        0 <= k < s.len() && #[trigger] s[k] == '<' ==> k + 2 < s.len() && !(s[k + 1] == c1 && s[k
            + 2] == c2)
}

proof fn lemma_opens2_concat(a: Seq<char>, b: Seq<char>, c1: char, c2: char)
    requires
        opens_not_followed_by2(a, c1, c2),
        opens_not_followed_by2(b, c1, c2),
    ensures
        opens_not_followed_by2(a + b, c1, c2),
{
    let s = a + b;
    assert forall|k: int| 0 <= k < s.len() && #[trigger] s[k] == '<' implies k + 2 < s.len() && !(
    s[k + 1] == c1 && s[k + 2] == c2) by {
        if k < a.len() {
            assert(s[k] == a[k]);
            assert(s[k + 1] == a[k + 1]);
            assert(s[k + 2] == a[k + 2]);
        } else {
            assert(s[k] == b[k - a.len()]);
            assert(s[k + 1] == b[k + 1 - a.len()]);
            assert(s[k + 2] == b[k + 2 - a.len()]);
        }
    }
}

proof fn lemma_no_match_opens2(s: Seq<char>, kind: Kind, form: Form)
    requires
        opens_not_followed_by2(s, tag(kind)[0], tag(kind)[1]),
    ensures
        forall|k: int| 0 <= k < s.len() ==> (#[trigger] match_at(s, k, kind, form)) is None,
{
    assert forall|k: int| 0 <= k < s.len() implies (#[trigger] match_at(s, k, kind, form)) is None by {
        if s[k] == '<' {
            reveal(match_verbose);
            reveal(match_short);
            let t = tag(kind);
            if occurs_at(s, k, seq!['<'] + t) {
                assert(s.subrange(k, k + 1 + t.len())[1] == s[k + 1]);
                assert(s.subrange(k, k + 1 + t.len())[2] == s[k + 2]);
            }
            if occurs_at(s, k, seq!['<'] + t + seq![':']) {
                assert(s.subrange(k, k + 2 + t.len())[1] == s[k + 1]);
                assert(s.subrange(k, k + 2 + t.len())[2] == s[k + 2]);
            }
        } else {
            lemma_no_match_without_open(s, k, kind, form);
        }
    }
}

proof fn lemma_link_opens2(kind: Kind, id: Seq<char>, text: Seq<char>)
    requires
        no_open(id),
        no_open(text),
    ensures
        opens_not_followed_by2(link(kind, id, text), 'i', 't'),
{
    reveal_strlit("<a href=\"/items/");
    reveal_strlit("<a href=\"/npcs/");
    reveal_strlit(".html\" class=\"item-link\"><img src=\"/assets/images/items/");
    reveal_strlit(".html\" class=\"npc-link\"><img src=\"/assets/images/npcs/");
    reveal_strlit(".png\" alt=\"");
    reveal_strlit("\" class=\"inline-icon\" />");
    reveal_strlit("</a>");
    let o = link_open(kind);
    let m = link_mid(kind);
    let (c1, c2) = ('i', 't');
    assert(opens_not_followed_by2(o, c1, c2));
    assert(opens_not_followed_by2(m, c1, c2));
    assert(opens_not_followed_by2(link_alt(), c1, c2));
    assert(opens_not_followed_by2(link_icon_end(), c1, c2));
    assert(opens_not_followed_by2(link_close(), c1, c2));
    assert(opens_not_followed_by2(id, c1, c2));
    assert(opens_not_followed_by2(text, c1, c2));
    lemma_opens2_concat(o, id, c1, c2);
    lemma_opens2_concat(o + id, m, c1, c2);
    lemma_opens2_concat(o + id + m, id, c1, c2);
    lemma_opens2_concat(o + id + m + id, link_alt(), c1, c2);
    lemma_opens2_concat(o + id + m + id + link_alt(), text, c1, c2);
    lemma_opens2_concat(o + id + m + id + link_alt() + text, link_icon_end(), c1, c2);
    lemma_opens2_concat(o + id + m + id + link_alt() + text + link_icon_end(), text, c1, c2);
    lemma_opens2_concat(
        o + id + m + id + link_alt() + text + link_icon_end() + text,
        link_close(),
        c1,
        c2,
    );
}

/// After the verbose passes, text made of plain stretches and links is left alone by the
/// later passes.
proof fn lemma_links_untouched(p: Seq<char>, l1: Seq<char>, q: Seq<char>, l2: Seq<char>, kind: Kind, x: Seq<char>, t1: Seq<char>, y: Seq<char>, t2: Seq<char>)
    requires
        no_open(p),
        no_open(q),
        no_open(x),
        no_open(t1),
        no_open(y),
        no_open(t2),
        l1 == link(kind, x, t1),
        l2 == link(kind, y, t2),
    ensures
        ({
            let out = p + l1 + q + l2;
            &&& rewrite(out, Kind::Npc, Form::Verbose) == out
            &&& rewrite(out, Kind::Item, Form::Short) == out
            &&& rewrite(out, Kind::Npc, Form::Short) == out
        }),
{
    let out = p + l1 + q + l2;
    lemma_link_opens(kind, x, t1);
    lemma_link_opens(kind, y, t2);
    lemma_no_open_opens(p, 'n');
    lemma_no_open_opens(q, 'n');
    lemma_opens_concat(p, l1, 'n');
    lemma_opens_concat(p + l1, q, 'n');
    lemma_opens_concat(p + l1 + q, l2, 'n');
    lemma_link_opens2(kind, x, t1);
    lemma_link_opens2(kind, y, t2);
    assert(opens_not_followed_by2(p, 'i', 't'));
    assert(opens_not_followed_by2(q, 'i', 't'));
    lemma_opens2_concat(p, l1, 'i', 't');
    lemma_opens2_concat(p + l1, q, 'i', 't');
    lemma_opens2_concat(p + l1 + q, l2, 'i', 't');
    lemma_no_match_opens(out, Kind::Npc, Form::Verbose);
    lemma_no_match_opens(out, Kind::Npc, Form::Short);
    lemma_no_match_opens2(out, Kind::Item, Form::Short);
    lemma_rewrite_none(out, 0, Kind::Npc, Form::Verbose);
    lemma_rewrite_none(out, 0, Kind::Npc, Form::Short);
    lemma_rewrite_none(out, 0, Kind::Item, Form::Short);
    assert(out.skip(0) =~= out);
}

proof fn lemma_verbose_ref_opens(kind: Kind, x: Seq<char>, t: Seq<char>, c: char)
    requires
        no_open(x),
        no_open(t),
        c != tag(kind)[0],
        c != '/',
    ensures
        opens_not_followed_by(verbose_ref(kind, x, t), c),
{
    let a = seq!['<'] + tag(kind);
    let b = seq![' ', 'n', 'a', 'm', 'e', '=', '"'];
    let d = seq!['"', '>'];
    let e = seq!['<', '/'] + tag(kind) + seq!['>'];
    assert(opens_not_followed_by(a, c)) by {
        assert forall|k: int| 0 <= k < a.len() && #[trigger] a[k] == '<' implies k + 1 < a.len()
            && a[k + 1] != c by {
            if k > 0 {
                assert(a[k] == tag(kind)[k - 1]);
            }
        }
    }
    assert(opens_not_followed_by(e, c)) by {
        assert forall|k: int| 0 <= k < e.len() && #[trigger] e[k] == '<' implies k + 1 < e.len()
            && e[k + 1] != c by {
            if k > 1 && k < e.len() - 1 {
                assert(e[k] == tag(kind)[k - 2]);
            }
        }
    }
    assert(opens_not_followed_by(b, c));
    assert(opens_not_followed_by(d, c));
    lemma_no_open_opens(x, c);
    lemma_no_open_opens(t, c);
    lemma_opens_concat(a, b, c);
    lemma_opens_concat(a + b, x, c);
    lemma_opens_concat(a + b + x, d, c);
    lemma_opens_concat(a + b + x + d, t, c);
    lemma_opens_concat(a + b + x + d + t, e, c);
    assert(verbose_ref(kind, x, t) =~= a + b + x + d + t + e);
}

/// Two verbose references of one kind after plain text, and their replacement in that
/// kind's verbose pass.
proof fn lemma_two_verbose_rewrite(
    p: Seq<char>,
    q: Seq<char>,
    kind: Kind,
    x: Seq<char>,
    t1: Seq<char>,
    y: Seq<char>,
    t2: Seq<char>,
)
    requires
        no_open(p),
        no_open(q),
        is_plain_id(x),
        is_plain_id(y),
        no_open(t1),
        no_open(t2),
    ensures
        rewrite(p + verbose_ref(kind, x, t1) + q + verbose_ref(kind, y, t2), kind, Form::Verbose)
            == p + link(kind, x, t1) + q + link(kind, y, t2),
{
    let r1 = verbose_ref(kind, x, t1);
    let r2 = verbose_ref(kind, y, t2);
    let s = p + r1 + q + r2;
    lemma_four_parts(p, r1, q, r2);
    lemma_verbose_match(s, p.len() as int, kind, x, t1);
    lemma_verbose_match(s, (p.len() + r1.len() + q.len()) as int, kind, y, t2);
    lemma_two_blocks_rewrite(p, r1, q, r2, link(kind, x, t1), link(kind, y, t2), kind, Form::Verbose);
}

/// Every verbose item reference is linked, wherever it stands: in plain text `p`,
/// `<item name="x">t1</item>`, plain text `q`, `<item name="y">t2</item>`, both
/// references become item links with their ids and display texts, and the text around
/// them stays.
pub proof fn law_every_item_reference_linked(
    p: Seq<char>,
    q: Seq<char>,
    x: Seq<char>,
    t1: Seq<char>,
    y: Seq<char>,
    t2: Seq<char>,
)
    requires
        no_open(p),
        no_open(q),
        is_plain_id(x),
        is_plain_id(y),
        no_open(t1),
        no_open(t2),
    ensures
        linkify(
            p + seq!['<', 'i', 't', 'e', 'm', ' ', 'n', 'a', 'm', 'e', '=', '"'] + x + seq!['"', '>']
                + t1 + seq!['<', '/', 'i', 't', 'e', 'm', '>'] + q + seq![
                '<',
                'i',
                't',
                'e',
                'm',
                ' ',
                'n',
                'a',
                'm',
                'e',
                '=',
                '"',
            ] + y + seq!['"', '>'] + t2 + seq!['<', '/', 'i', 't', 'e', 'm', '>'],
        ) == p + link(Kind::Item, x, t1) + q + link(Kind::Item, y, t2),
{
    let kind = Kind::Item;
    let s = p + verbose_ref(kind, x, t1) + q + verbose_ref(kind, y, t2);
    assert(p + seq!['<', 'i', 't', 'e', 'm', ' ', 'n', 'a', 'm', 'e', '=', '"'] + x + seq!['"', '>']
        + t1 + seq!['<', '/', 'i', 't', 'e', 'm', '>'] + q + seq![
        '<',
        'i',
        't',
        'e',
        'm',
        ' ',
        'n',
        'a',
        'm',
        'e',
        '=',
        '"',
    ] + y + seq!['"', '>'] + t2 + seq!['<', '/', 'i', 't', 'e', 'm', '>'] =~= s);
    lemma_two_verbose_rewrite(p, q, kind, x, t1, y, t2);
    lemma_links_untouched(
        p,
        link(kind, x, t1),
        q,
        link(kind, y, t2),
        kind,
        x,
        t1,
        y,
        t2,
    );
}

/// Every verbose NPC reference is linked, wherever it stands: in plain text `p`,
/// `<npc name="x">t1</npc>`, plain text `q`, `<npc name="y">t2</npc>`, both references
/// become NPC links with their ids and display texts, and the text around them stays.
pub proof fn law_every_npc_reference_linked(
    p: Seq<char>,
    q: Seq<char>,
    x: Seq<char>,
    t1: Seq<char>,
    y: Seq<char>,
    t2: Seq<char>,
)
    requires
        no_open(p),
        no_open(q),
        is_plain_id(x),
        is_plain_id(y),
        no_open(t1),
        no_open(t2),
    ensures
        linkify(
            p + seq!['<', 'n', 'p', 'c', ' ', 'n', 'a', 'm', 'e', '=', '"'] + x + seq!['"', '>'] + t1
                + seq!['<', '/', 'n', 'p', 'c', '>'] + q + seq![
                '<',
                'n',
                'p',
                'c',
                ' ',
                'n',
                'a',
                'm',
                'e',
                '=',
                '"',
            ] + y + seq!['"', '>'] + t2 + seq!['<', '/', 'n', 'p', 'c', '>'],
        ) == p + link(Kind::Npc, x, t1) + q + link(Kind::Npc, y, t2),
{
    let kind = Kind::Npc;
    let r1 = verbose_ref(kind, x, t1);
    let r2 = verbose_ref(kind, y, t2);
    let s = p + r1 + q + r2;
    assert(p + seq!['<', 'n', 'p', 'c', ' ', 'n', 'a', 'm', 'e', '=', '"'] + x + seq!['"', '>'] + t1
        + seq!['<', '/', 'n', 'p', 'c', '>'] + q + seq![
        '<',
        'n',
        'p',
        'c',
        ' ',
        'n',
        'a',
        'm',
        'e',
        '=',
        '"',
    ] + y + seq!['"', '>'] + t2 + seq!['<', '/', 'n', 'p', 'c', '>'] =~= s);
    lemma_verbose_ref_opens(kind, x, t1, 'i');
    lemma_verbose_ref_opens(kind, y, t2, 'i');
    lemma_no_open_opens(p, 'i');
    lemma_no_open_opens(q, 'i');
    lemma_opens_concat(p, r1, 'i');
    lemma_opens_concat(p + r1, q, 'i');
    lemma_opens_concat(p + r1 + q, r2, 'i');
    lemma_no_match_opens(s, Kind::Item, Form::Verbose);
    lemma_rewrite_none(s, 0, Kind::Item, Form::Verbose);
    assert(s.skip(0) =~= s);
    lemma_two_verbose_rewrite(p, q, kind, x, t1, y, t2);
    lemma_links_untouched(
        p,
        link(kind, x, t1),
        q,
        link(kind, y, t2),
        kind,
        x,
        t1,
        y,
        t2,
    );
}

proof fn lemma_display_from_ascii(id: Seq<char>, i: int)
    requires
        0 <= i <= id.len(),
        all_ascii(id),
    ensures
        display_from(id, i).len() == id.len() - i,
        forall|k: int|
            i <= k < id.len() ==> #[trigger] display_from(id, i)[k - i] == (if id[k] == '-' {
                ' '
            } else if k == 0 || id[k - 1] == '-' {
                ascii_upper(id[k])
            } else {
                id[k]
            }),
    decreases id.len() - i,
{
    if i < id.len() {
        lemma_display_from_ascii(id, i + 1);
        assert((id[i] as u32) < 128);
        let piece = display_piece(id, i);
        let rest = display_from(id, i + 1);
        assert(piece.len() == 1);
        assert forall|k: int| i <= k < id.len() implies #[trigger] display_from(id, i)[k - i] == (
        if id[k] == '-' {
            ' '
        } else if k == 0 || id[k - 1] == '-' {
            ascii_upper(id[k])
        } else {
            id[k]
        }) by {
            if k > i {
                assert((piece + rest)[k - i] == rest[k - (i + 1)]);
            }
        }
    }
}

/// The display name of an ASCII id has one character per character of the id: each `-`
/// becomes a space, the character that starts the id or follows a `-` is upper-cased,
/// and every other character is kept.
pub proof fn law_display_name_per_character(id: Seq<char>)
    requires
        all_ascii(id),
    ensures
        display_name(id).len() == id.len(),
        forall|k: int|
            0 <= k < id.len() ==> #[trigger] display_name(id)[k] == (if id[k] == '-' {
                ' '
            } else if k == 0 || id[k - 1] == '-' {
                if 'a' <= id[k] <= 'z' {
                    ((id[k] as u32) - 32) as char
                } else {
                    id[k]
                }
            } else {
                id[k]
            }),
{
    lemma_display_from_ascii(id, 0);
    assert forall|k: int| 0 <= k < id.len() implies #[trigger] display_name(id)[k] == (if id[k]
        == '-' {
        ' '
    } else if k == 0 || id[k - 1] == '-' {
        if 'a' <= id[k] <= 'z' {
            ((id[k] as u32) - 32) as char
        } else {
            id[k]
        }
    } else {
        id[k]
    }) by {
        assert(display_from(id, 0)[k - 0] == display_name(id)[k]);
    }
}

proof fn lemma_shift_run_end(s: Seq<char>, i: int, a: int, class: CharClass)
    requires
        0 <= i <= a <= s.len(),
    ensures
        run_end(s, a, class) == run_end(s.skip(i), a - i, class) + i,
    decreases s.len() - a,
{
    if a < s.len() {
        assert(s.skip(i)[a - i] == s[a]);
        lemma_shift_run_end(s, i, a + 1, class);
    }
}

proof fn lemma_shift_occurs(s: Seq<char>, i: int, a: int, p: Seq<char>)
    requires
        0 <= i <= a,
        i <= s.len(),
    ensures
        occurs_at(s, a, p) == occurs_at(s.skip(i), a - i, p),
{
    if a + p.len() <= s.len() {
        assert(s.subrange(a, a + p.len()) =~= s.skip(i).subrange(a - i, a - i + p.len()));
    }
}

/// The positions of the verbose grammar, shifted.
proof fn lemma_shift_verbose(s: Seq<char>, i: int, kind: Kind)
    requires
        0 <= i <= s.len(),
    ensures
        match match_verbose(s.skip(i), 0, kind) {
            Some((e, id, text)) => match_verbose(s, i, kind) == Some((e + i, id, text)),
            None => match_verbose(s, i, kind) is None,
        },
{
    reveal(match_verbose);
    let t = s.skip(i);
    let tg = tag(kind);
    let open = seq!['<'] + tg;
    let after_tag = i + open.len();
    lemma_shift_occurs(s, i, i, open);
    if occurs_at(s, i, open) {
        lemma_shift_run_end(s, i, after_tag, CharClass::Space);
        let w = run_end(s, after_tag, CharClass::Space);
        lemma_run_end(s, after_tag, CharClass::Space);
        let name_eq = seq!['n', 'a', 'm', 'e', '=', '"'];
        lemma_shift_occurs(s, i, w, name_eq);
        if w != after_tag && occurs_at(s, w, name_eq) {
            let id_start = w + 6;
            lemma_shift_run_end(s, i, id_start, CharClass::Except('"'));
            let q = run_end(s, id_start, CharClass::Except('"'));
            lemma_run_end(s, id_start, CharClass::Except('"'));
            if q != id_start && q < s.len() {
                lemma_shift_run_end(s, i, q + 1, CharClass::Except('>'));
                let g = run_end(s, q + 1, CharClass::Except('>'));
                lemma_run_end(s, q + 1, CharClass::Except('>'));
                if g < s.len() {
                    lemma_shift_run_end(s, i, g + 1, CharClass::Except('<'));
                    let l = run_end(s, g + 1, CharClass::Except('<'));
                    lemma_run_end(s, g + 1, CharClass::Except('<'));
                    let close = seq!['<', '/'] + tg + seq!['>'];
                    lemma_shift_occurs(s, i, l, close);
                    assert(s.subrange(id_start, q) =~= t.subrange(id_start - i, q - i));
                    assert(s.subrange(g + 1, l) =~= t.subrange(g + 1 - i, l - i));
                }
            }
        }
    }
}

/// The positions of the shorthand grammar, shifted.
proof fn lemma_shift_short(s: Seq<char>, i: int, kind: Kind)
    requires
        0 <= i <= s.len(),
    ensures
        match match_short(s.skip(i), 0, kind) {
            Some((e, id)) => match_short(s, i, kind) == Some((e + i, id)),
            None => match_short(s, i, kind) is None,
        },
{
    reveal(match_short);
    let t = s.skip(i);
    let open = seq!['<'] + tag(kind) + seq![':'];
    let id_start = i + open.len();
    lemma_shift_occurs(s, i, i, open);
    if occurs_at(s, i, open) {
        lemma_shift_run_end(s, i, id_start, CharClass::Slug);
        let r = run_end(s, id_start, CharClass::Slug);
        lemma_run_end(s, id_start, CharClass::Slug);
        if r < s.len() {
            assert(t[r - i] == s[r]);
        }
        assert(s.subrange(id_start, r) =~= t.subrange(id_start - i, r - i));
    }
}

/// Whether a reference begins at `i`, and what replaces it, depends only on the text
/// from `i` on: what precedes it plays no part.
pub proof fn law_match_is_local(s: Seq<char>, i: int, kind: Kind, form: Form)
    requires
        0 <= i <= s.len(),
    ensures
        match match_at(s.skip(i), 0, kind, form) {
            Some((e, rep)) => match_at(s, i, kind, form) == Some((e + i, rep)),
            None => match_at(s, i, kind, form) is None,
        },
{
    lemma_shift_verbose(s, i, kind);
    lemma_shift_short(s, i, kind);
}

proof fn lemma_rewrite_local(s: Seq<char>, i: int, j: int, kind: Kind, form: Form)
    requires
        0 <= i <= j <= s.len(),
    ensures
        rewrite_from(s, j, kind, form) == rewrite_from(s.skip(i), j - i, kind, form),
    decreases s.len() - j,
{
    let t = s.skip(i);
    if j < s.len() {
        law_match_is_local(s, j, kind, form);
        law_match_is_local(t, j - i, kind, form);
        assert(t.skip(j - i) =~= s.skip(j));
        let m = match_at(s.skip(j), 0, kind, form);
        lemma_rewrite_step(s, j, kind, form);
        lemma_rewrite_step(t, j - i, kind, form);
        if m is Some {
            let (e, rep) = m->0;
            assert(match_at(s, j, kind, form) == Some((e + j, rep)));
            assert(match_at(t, j - i, kind, form) == Some((e + j - i, rep)));
            lemma_match_bounds(s, j, kind, form);
            lemma_rewrite_local(s, i, e + j, kind, form);
        } else {
            assert(t[j - i] == s[j]);
            lemma_rewrite_local(s, i, j + 1, kind, form);
        }
    }
}

/// Rewriting is local: from any position on, it gives what rewriting the rest of the
/// text alone gives, whatever references came before.
pub proof fn law_rewrite_is_local(s: Seq<char>, i: int, kind: Kind, form: Form)
    requires
        0 <= i <= s.len(),
    ensures
        rewrite_from(s, i, kind, form) == rewrite(s.skip(i), kind, form),
{
    lemma_rewrite_local(s, i, i, kind, form);
}

} // verus!
