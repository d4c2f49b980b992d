//! Decisions of the local preview server: which file a request asks for, the reload
//! endpoint's answer, and the content type of a served file.
use vstd::prelude::*;

use crate::paths::{extension, path_extension};
use crate::text::{
    chars_of, contains_exec, contains_seq, decimal, decimal_exec, occurs_at, push_range, push_str,
    replace_all, replace_all_exec, str_eq, string_from_chars, trim_leading, trim_leading_exec,
};

verus! {

/// A request path that tries to leave the output directory.
#[derive(PartialEq, Eq, Structural, Clone, Copy, Debug)]
pub enum InvalidPath {
    /// The path holds `..`.
    ParentReference,
}

/// The path that the URL names inside the output directory: leading slashes removed,
/// the empty path read as `index.html`; refused when it holds `..`; `%20` decoded as
/// a space.
pub open spec fn sanitized(url: Seq<char>) -> Option<Seq<char>> {
    let trimmed = trim_leading(url, '/');
    let path = if trimmed.len() == 0 {
        "index.html"@
    } else {
        trimmed
    };
    if contains_seq(path, seq!['.', '.']) {
        None
    } else {
        Some(replace_all(path, seq!['%', '2', '0'], seq![' ']))
    }
}

/// Turns a request URL into a path relative to the output directory.
pub fn sanitize_url_path(url: &str) -> (r: Result<String, InvalidPath>)
    ensures
        match sanitized(url@) {
            Some(p) => r matches Ok(s) && s@ == p,
            None => r == Err::<String, InvalidPath>(InvalidPath::ParentReference),
        },
{
    let u = chars_of(url);
    let trimmed = trim_leading_exec(&u, '/');
    let path = if trimmed.len() == 0 {
        chars_of("index.html")
    } else {
        trimmed
    };
    let dots: Vec<char> = vec!['.', '.'];
    assert(dots@ =~= seq!['.', '.']);
    if contains_exec(&path, &dots) {
        return Err(InvalidPath::ParentReference);
    }
    let pat: Vec<char> = vec!['%', '2', '0'];
    let rep: Vec<char> = vec![' '];
    assert(pat@ =~= seq!['%', '2', '0']);
    assert(rep@ =~= seq![' ']);
    let decoded = replace_all_exec(&path, &pat, &rep);
    Ok(string_from_chars(decoded.as_slice()))
}

/// What a request asks for.
pub enum Route {
    /// The live-reload endpoint `/__reload`.
    Reload,
    /// A file, by its path relative to the output directory.
    File(String),
}

/// Decides what a request URL asks for.
pub fn route_request(url: &str) -> (r: Result<Route, InvalidPath>)
    ensures
        url@ == "/__reload"@ ==> r matches Ok(Route::Reload),
        url@ != "/__reload"@ ==> match sanitized(url@) {
            Some(p) => r matches Ok(Route::File(s)) && s@ == p,
            None => r == Err::<Route, InvalidPath>(InvalidPath::ParentReference),
        },
{
    if str_eq(url, "/__reload") {
        return Ok(Route::Reload);
    }
    match sanitize_url_path(url) {
        Ok(p) => Ok(Route::File(p)),
        Err(e) => Err(e),
    }
}

/// `{"build":N}`.
pub open spec fn reload_json(build_id: nat) -> Seq<char> {
    "{\"build\":"@ + decimal(build_id) + "}"@
}

/// The body of the reload endpoint's answer: the number of successful builds.
pub fn reload_body(build_id: u64) -> (r: String)
    ensures
        r@ == reload_json(build_id as nat),
{
    let mut out: Vec<char> = Vec::new();
    push_str(&mut out, "{\"build\":");
    let digits = decimal_exec(build_id);
    push_range(&mut out, &digits, 0, digits.len());
    push_str(&mut out, "}");
    assert(digits@.subrange(0, digits@.len() as int) =~= digits@);
    assert(out@ =~= reload_json(build_id as nat));
    string_from_chars(out.as_slice())
}

/// The content type served for a file extension (`""` when there is none).
pub open spec fn content_type(ext: Seq<char>) -> Seq<char> {
    if ext == "html"@ {
        "text/html; charset=utf-8"@
    } else if ext == "css"@ {
        "text/css; charset=utf-8"@
    } else if ext == "js"@ {
        "application/javascript; charset=utf-8"@
    } else if ext == "json"@ {
        "application/json; charset=utf-8"@
    } else if ext == "png"@ {
        "image/png"@
    } else if ext == "jpg"@ || ext == "jpeg"@ {
        "image/jpeg"@
    } else if ext == "webp"@ {
        "image/webp"@
    } else if ext == "svg"@ {
        "image/svg+xml"@
    } else if ext == "txt"@ {
        "text/plain; charset=utf-8"@
    } else {
        "application/octet-stream"@
    }
}

/// The extension of a path, `""` when it has none.
pub open spec fn extension_or_empty(path: Seq<char>) -> Seq<char> {
    match extension(path) {
        Some(e) => e,
        None => Seq::empty(),
    }
}

/// The content type for an extension.
pub fn content_type_for_extension(ext: &str) -> (r: &'static str)
    ensures
        r@ == content_type(ext@),
{
    if str_eq(ext, "html") {
        "text/html; charset=utf-8"
    } else if str_eq(ext, "css") {
        "text/css; charset=utf-8"
    } else if str_eq(ext, "js") {
        "application/javascript; charset=utf-8"
    } else if str_eq(ext, "json") {
        "application/json; charset=utf-8"
    } else if str_eq(ext, "png") {
        "image/png"
    } else if str_eq(ext, "jpg") || str_eq(ext, "jpeg") {
        "image/jpeg"
    } else if str_eq(ext, "webp") {
        "image/webp"
    } else if str_eq(ext, "svg") {
        "image/svg+xml"
    } else if str_eq(ext, "txt") {
        "text/plain; charset=utf-8"
    } else {
        "application/octet-stream"
    }
}

/// The content type for a file, by its extension.
pub fn content_type_for_path(path: &str) -> (r: &'static str)
    ensures
        r@ == content_type(extension_or_empty(path@)),
{
    match path_extension(path) {
        Some(e) => content_type_for_extension(e.as_str()),
        None => {
            proof {
                reveal_strlit("");
                assert(""@ =~= Seq::<char>::empty());
            }
            content_type_for_extension("")
        },
    }
}

/// Status and content type of a response.
#[derive(PartialEq, Eq, Clone, Copy)]
pub struct ResponseHead {
    pub status: u16,
    pub content_type: &'static str,
}

/// The head of the answer for a file request: `404 text/plain` when the file is missing,
/// else `200` with the file's content type.
pub fn file_response_head(exists: bool, full_path: &str) -> (r: ResponseHead)
    ensures
        !exists ==> r.status == 404 && r.content_type@ == "text/plain; charset=utf-8"@,
        exists ==> r.status == 200 && r.content_type@ == content_type(extension_or_empty(full_path@)),
{
    if !exists {
        ResponseHead { status: 404, content_type: "text/plain; charset=utf-8" }
    } else {
        ResponseHead { status: 200, content_type: content_type_for_path(full_path) }
    }
}

/// The head of the reload endpoint's answer.
pub fn reload_response_head() -> (r: ResponseHead)
    ensures
        r.status == 200,
        r.content_type@ == "application/json"@,
{
    ResponseHead { status: 200, content_type: "application/json" }
}

// ---------------------------------------------------------------------------
// Laws

proof fn lemma_trim_leading(s: Seq<char>, c: char)
    ensures
        trim_leading(s, c).len() > 0 ==> trim_leading(s, c)[0] != c,
    decreases s.len(),
{
    if s.len() > 0 && s[0] == c {
        lemma_trim_leading(s.skip(1), c);
    }
}

proof fn lemma_no_dots_skip(x: Seq<char>, k: int)
    requires
        0 <= k <= x.len(),
        !contains_seq(x, seq!['.', '.']),
    ensures
        !contains_seq(x.skip(k), seq!['.', '.']),
{
    if contains_seq(x.skip(k), seq!['.', '.']) {
        let j = choose|j: int| occurs_at(x.skip(k), j, seq!['.', '.']);
        assert(x.skip(k).subrange(j, j + 2) =~= x.subrange(j + k, j + k + 2));
        assert(occurs_at(x, j + k, seq!['.', '.']));
    }
}

proof fn lemma_replace_first(x: Seq<char>)
    requires
        x.len() > 0,
    ensures
        ({
            let y = replace_all(x, seq!['%', '2', '0'], seq![' ']);
            y.len() > 0 && (y[0] == ' ' || y[0] == x[0])
        }),
{
}

/// Decoding `%20` into spaces never makes a `..`.
proof fn lemma_decode_no_dots(x: Seq<char>)
    requires
        !contains_seq(x, seq!['.', '.']),
    ensures
        !contains_seq(replace_all(x, seq!['%', '2', '0'], seq![' ']), seq!['.', '.']),
    decreases x.len(),
{
    let pat = seq!['%', '2', '0'];
    let dd = seq!['.', '.'];
    let y = replace_all(x, pat, seq![' ']);
    if x.len() > 0 {
        if occurs_at(x, 0, pat) {
            lemma_no_dots_skip(x, 3);
            lemma_decode_no_dots(x.skip(3));
            let r = replace_all(x.skip(3), pat, seq![' ']);
            assert(y == seq![' '] + r);
            if contains_seq(y, dd) {
                let j = choose|j: int| occurs_at(y, j, dd);
                assert(y.subrange(j, j + 2)[0] == y[j]);
                if j == 0 {
                    assert(y[0] == ' ');
                } else {
                    assert(y.subrange(j, j + 2) =~= r.subrange(j - 1, j + 1));
                    assert(occurs_at(r, j - 1, dd));
                }
            }
        } else {
            lemma_no_dots_skip(x, 1);
            lemma_decode_no_dots(x.skip(1));
            let r = replace_all(x.skip(1), pat, seq![' ']);
            assert(y == seq![x[0]] + r);
            if contains_seq(y, dd) {
                let j = choose|j: int| occurs_at(y, j, dd);
                assert(y.subrange(j, j + 2)[0] == y[j]);
                assert(y.subrange(j, j + 2)[1] == y[j + 1]);
                if j == 0 {
                    lemma_replace_first(x.skip(1));
                    assert(r[0] == y[1]);
                    assert(x.subrange(0, 2) =~= dd);
                    assert(occurs_at(x, 0, dd));
                } else {
                    assert(y.subrange(j, j + 2) =~= r.subrange(j - 1, j + 1));
                    assert(occurs_at(r, j - 1, dd));
                }
            }
        }
    }
}

proof fn lemma_decode_head(x: Seq<char>)
    requires
        x.len() > 0,
    ensures
        ({
            let y = replace_all(x, seq!['%', '2', '0'], seq![' ']);
            &&& occurs_at(x, 0, seq!['%', '2', '0']) ==> y == seq![' '] + replace_all(
                x.skip(3),
                seq!['%', '2', '0'],
                seq![' '],
            )
            &&& !occurs_at(x, 0, seq!['%', '2', '0']) ==> y == seq![x[0]] + replace_all(
                x.skip(1),
                seq!['%', '2', '0'],
                seq![' '],
            )
        }),
{
}

/// Decoding leaves no `%20` behind.
pub proof fn law_decoding_complete(x: Seq<char>)
    ensures
        !contains_seq(replace_all(x, seq!['%', '2', '0'], seq![' ']), seq!['%', '2', '0']),
    decreases x.len(),
{
    let pat = seq!['%', '2', '0'];
    let y = replace_all(x, pat, seq![' ']);
    if x.len() > 0 {
        lemma_decode_head(x);
        if occurs_at(x, 0, pat) {
            law_decoding_complete(x.skip(3));
            let r = replace_all(x.skip(3), pat, seq![' ']);
            if contains_seq(y, pat) {
                let j = choose|j: int| occurs_at(y, j, pat);
                assert(y.subrange(j, j + 3)[0] == y[j]);
                if j == 0 {
                    assert(y[0] == ' ');
                } else {
                    assert(y.subrange(j, j + 3) =~= r.subrange(j - 1, j + 2));
                    assert(occurs_at(r, j - 1, pat));
                }
            }
        } else {
            law_decoding_complete(x.skip(1));
            let r = replace_all(x.skip(1), pat, seq![' ']);
            if contains_seq(y, pat) {
                let j = choose|j: int| occurs_at(y, j, pat);
                assert(y.subrange(j, j + 3)[0] == y[j]);
                assert(y.subrange(j, j + 3)[1] == y[j + 1]);
                assert(y.subrange(j, j + 3)[2] == y[j + 2]);
                if j == 0 {
                    // y = "%20..." with x not starting with "%20": follow the next two characters
                    let x1 = x.skip(1);
                    lemma_decode_head(x1);
                    assert(r[0] == y[1]);
                    if occurs_at(x1, 0, pat) {
                        assert(r[0] == ' ');
                    }
                    let x2 = x1.skip(1);
                    let r2 = replace_all(x2, pat, seq![' ']);
                    assert(r == seq![x1[0]] + r2);
                    assert(r2[0] == y[2]);
                    lemma_decode_head(x2);
                    if occurs_at(x2, 0, pat) {
                        assert(r2[0] == ' ');
                    }
                    assert(x2[0] == r2[0]);
                    assert(x[1] == x1[0]);
                    assert(x[2] == x2[0]);
                    assert(x.subrange(0, 3) =~= pat);
                } else {
                    assert(y.subrange(j, j + 3) =~= r.subrange(j - 1, j + 2));
                    assert(occurs_at(r, j - 1, pat));
                }
            }
        }
    }
}

/// A served file always lies inside the output directory: the sanitized path holds no
/// `..`, does not start with `/`, and joined to the output directory it extends it.
pub proof fn law_served_path_inside(out_dir: Seq<char>, url: Seq<char>)
    requires
        sanitized(url) is Some,
    ensures
        ({
            let p = sanitized(url)->0;
            &&& !contains_seq(p, seq!['.', '.'])
            &&& p.len() > 0 && p[0] != '/'
            &&& crate::paths::join(out_dir, p).subrange(0, out_dir.len() as int) == out_dir
        }),
{
    let trimmed = trim_leading(url, '/');
    let path = if trimmed.len() == 0 {
        "index.html"@
    } else {
        trimmed
    };
    reveal_strlit("index.html");
    lemma_trim_leading(url, '/');
    lemma_decode_no_dots(path);
    lemma_replace_first(path);
    let p = sanitized(url)->0;
    assert(p[0] != '/');
    let j = crate::paths::join(out_dir, p);
    assert(j.subrange(0, out_dir.len() as int) =~= out_dir);
}

} // verus!
