//! Slash-separated paths as text: joining, the file name and its extension, read the
//! way `std::path::Path` reads them on Unix.
use vstd::prelude::*;

use crate::text::{
    chars_of, last_index_exec, last_index_of, lemma_last_index_of, push_range, same_chars,
    string_from_chars,
};

verus! {

/// `base` joined with `rel`: an absolute `rel` replaces `base`; otherwise a `/` is put
/// between them unless `base` is empty or already ends with `/` (as `PathBuf::join`).
pub open spec fn join(base: Seq<char>, rel: Seq<char>) -> Seq<char> {
    if rel.len() > 0 && rel[0] == '/' {
        rel
    } else if base.len() == 0 || base.last() == '/' {
        base + rel
    } else {
        base + seq!['/'] + rel
    }
}

/// `base` joined with `rel` (see [`join`]).
pub fn join_path(base: &str, rel: &str) -> (r: String)
    ensures
        r@ == join(base@, rel@),
{
    let b = chars_of(base);
    let r = chars_of(rel);
    let mut out: Vec<char> = Vec::new();
    if r.len() > 0 && r[0] == '/' {
        push_range(&mut out, &r, 0, r.len());
    } else {
        push_range(&mut out, &b, 0, b.len());
        if b.len() > 0 && b[b.len() - 1] != '/' {
            out.push('/');
        }
        push_range(&mut out, &r, 0, r.len());
    }
    assert(b@.subrange(0, b@.len() as int) =~= b@);
    assert(r@.subrange(0, r@.len() as int) =~= r@);
    assert(out@ =~= join(base@, rel@));
    string_from_chars(out.as_slice())
}

/// Where the file name of a path lies: its last component, where empty and `.`
/// components are skipped; none when the path has no such component or ends in `..`.
pub open spec fn file_name_span(p: Seq<char>) -> Option<(int, int)>
    decreases p.len(),
{
    let k = last_index_of(p, '/');
    let seg = p.subrange(k + 1, p.len() as int);
    if seg.len() == 0 || seg == seq!['.'] {
        if k < 0 {
            None
        } else {
            proof {
                lemma_last_index_of(p, '/');
            }
            file_name_span(p.subrange(0, k))
        }
    } else if seg == seq!['.', '.'] {
        None
    } else {
        Some((k + 1, p.len() as int))
    }
}

/// The file name of a path (as `Path::file_name`).
pub open spec fn file_name(p: Seq<char>) -> Option<Seq<char>> {
    match file_name_span(p) {
        Some((a, b)) => Some(p.subrange(a, b)),
        None => None,
    }
}

pub proof fn lemma_file_name_span(p: Seq<char>)
    ensures
        file_name_span(p) matches Some((a, b)) ==> 0 <= a <= b <= p.len(),
    decreases p.len(),
{
    lemma_last_index_of(p, '/');
    let k = last_index_of(p, '/');
    let seg = p.subrange(k + 1, p.len() as int);
    if (seg.len() == 0 || seg == seq!['.']) && k >= 0 {
        lemma_file_name_span(p.subrange(0, k));
    }
}

/// The extension of a file name: what follows its last `.`, when that `.` is not the
/// first character.
pub open spec fn extension_of_name(name: Seq<char>) -> Option<Seq<char>> {
    let d = last_index_of(name, '.');
    if d <= 0 {
        None
    } else {
        Some(name.subrange(d + 1, name.len() as int))
    }
}

/// The extension of a path (as `Path::extension`).
pub open spec fn extension(p: Seq<char>) -> Option<Seq<char>> {
    match file_name(p) {
        Some(name) => extension_of_name(name),
        None => None,
    }
}

/// The range of `p[..end]` that holds its file name.
fn file_name_range(p: &Vec<char>, end: usize) -> (r: Option<(usize, usize)>)
    requires
        end <= p.len(),
    ensures
        match r {
            Some((a, b)) => a <= b <= end && file_name_span(p@.subrange(0, end as int)) == Some(
                (a as int, b as int),
            ),
            None => file_name_span(p@.subrange(0, end as int)) is None,
        },
    decreases end,
{
    let ghost q = p@.subrange(0, end as int);
    proof {
        lemma_last_index_of(q, '/');
    }
    let start = match last_index_exec(p, end, '/') {
        Some(k) => k + 1,
        None => 0,
    };
    let ghost seg = q.subrange(last_index_of(q, '/') + 1, q.len() as int);
    assert(seg =~= p@.subrange(start as int, end as int));
    let len = end - start;
    let is_dot = len == 1 && p[start] == '.';
    let is_dotdot = len == 2 && p[start] == '.' && p[start + 1] == '.';
    assert(is_dot <==> seg == seq!['.']) by {
        if seg == seq!['.'] {
            assert(seg[0] == p@[start as int]);
        }
        if is_dot {
            assert(seg =~= seq!['.']);
        }
    }
    assert(is_dotdot <==> seg == seq!['.', '.']) by {
        if seg == seq!['.', '.'] {
            assert(seg[0] == p@[start as int]);
            assert(seg[1] == p@[start + 1]);
        }
        if is_dotdot {
            assert(seg =~= seq!['.', '.']);
        }
    }
    if len == 0 || is_dot {
        if start == 0 {
            None
        } else {
            assert(q.subrange(0, start - 1) =~= p@.subrange(0, start - 1));
            file_name_range(p, start - 1)
        }
    } else if is_dotdot {
        None
    } else {
        Some((start, end))
    }
}

/// The extension of `path`, if it has one (as `Path::extension`).
pub fn path_extension(path: &str) -> (r: Option<String>)
    ensures
        match extension(path@) {
            Some(e) => r matches Some(x) && x@ == e,
            None => r is None,
        },
{
    let p = chars_of(path);
    assert(p@.subrange(0, p@.len() as int) =~= p@);
    match file_name_range(&p, p.len()) {
        None => None,
        Some((a, b)) => {
            let ghost name = p@.subrange(a as int, b as int);
            assert(file_name(p@) == Some(name));
            proof {
                lemma_last_index_of(name, '.');
            }
            let mut name_chars: Vec<char> = Vec::new();
            push_range(&mut name_chars, &p, a, b);
            match last_index_exec(&name_chars, name_chars.len(), '.') {
                Some(d) => {
                    assert(name_chars@.subrange(0, name_chars@.len() as int) =~= name_chars@);
                    if d == 0 {
                        None
                    } else {
                        let mut ext: Vec<char> = Vec::new();
                        push_range(&mut ext, &name_chars, d + 1, name_chars.len());
                        Some(string_from_chars(ext.as_slice()))
                    }
                },
                None => {
                    assert(name_chars@.subrange(0, name_chars@.len() as int) =~= name_chars@);
                    None
                },
            }
        },
    }
}

/// Whether the extension of `path` is exactly `ext`.
pub fn has_extension(path: &str, ext: &str) -> (r: bool)
    ensures
        r == (extension(path@) == Some(ext@)),
{
    match path_extension(path) {
        Some(e) => {
            let a = chars_of(e.as_str());
            let b = chars_of(ext);
            same_chars(&a, &b)
        },
        None => false,
    }
}

/// `p` cut right after the stem of its file name: the file's extension and the dot
/// before it, and anything after the file name, are dropped (as `PathBuf::set_extension`
/// with an empty extension; `Path::with_extension` agrees on paths that end with their
/// file name). A path without a file name stays as it is.
pub open spec fn without_extension(p: Seq<char>) -> Seq<char> {
    match file_name_span(p) {
        Some((a, b)) => match extension_of_name(p.subrange(a, b)) {
            Some(e) => p.subrange(0, b - e.len() - 1),
            None => p.subrange(0, b),
        },
        None => p,
    }
}

/// `path` with its extension removed (see [`without_extension`]).
pub fn path_without_extension(path: &str) -> (r: String)
    ensures
        r@ == without_extension(path@),
{
    let p = chars_of(path);
    assert(p@.subrange(0, p@.len() as int) =~= p@);
    proof {
        lemma_file_name_span(p@);
    }
    let mut out: Vec<char> = Vec::new();
    match file_name_range(&p, p.len()) {
        None => {
            push_range(&mut out, &p, 0, p.len());
        },
        Some((a, b)) => {
            let ghost name = p@.subrange(a as int, b as int);
            proof {
                lemma_last_index_of(name, '.');
            }
            let mut name_chars: Vec<char> = Vec::new();
            push_range(&mut name_chars, &p, a, b);
            assert(name_chars@.subrange(0, name_chars@.len() as int) =~= name_chars@);
            match last_index_exec(&name_chars, name_chars.len(), '.') {
                Some(d) => {
                    if d == 0 {
                        push_range(&mut out, &p, 0, b);
                    } else {
                        push_range(&mut out, &p, 0, a + d);
                    }
                },
                None => {
                    push_range(&mut out, &p, 0, b);
                },
            }
        },
    }
    string_from_chars(out.as_slice())
}

/// What follows the last `/` of `s` (all of `s` when it has none).
pub open spec fn last_segment(s: Seq<char>) -> Seq<char> {
    s.subrange(last_index_of(s, '/') + 1, s.len() as int)
}

/// The last segment of `s` ends `s`, holds no `/`, and follows a `/` unless it is all
/// of `s`.
pub proof fn law_last_segment(s: Seq<char>)
    ensures
        ({
            let seg = last_segment(s);
            let before = s.subrange(0, s.len() - seg.len());
            &&& seg.len() <= s.len()
            &&& s == before + seg
            &&& forall|k: int| 0 <= k < seg.len() ==> #[trigger] seg[k] != '/'
            &&& before.len() == 0 || before.last() == '/'
        }),
{
    lemma_last_index_of(s, '/');
    let k = last_index_of(s, '/');
    let seg = last_segment(s);
    assert(s =~= s.subrange(0, k + 1) + seg);
    assert forall|j: int| 0 <= j < seg.len() implies #[trigger] seg[j] != '/' by {
        assert(seg[j] == s[k + 1 + j]);
    }
}

/// What follows the last `/` of `s` (see [`last_segment`]).
pub fn last_segment_exec(s: &str) -> (r: Vec<char>)
    ensures
        r@ == last_segment(s@),
{
    let p = chars_of(s);
    assert(p@.subrange(0, p@.len() as int) =~= p@);
    proof {
        lemma_last_index_of(p@, '/');
    }
    let start = match last_index_exec(&p, p.len(), '/') {
        Some(k) => k + 1,
        None => 0,
    };
    let mut out: Vec<char> = Vec::new();
    push_range(&mut out, &p, start, p.len());
    out
}

/// `p` with the extension of its file name set to `ext` (as `PathBuf::set_extension`):
/// cut after the file stem, then `.ext` added when `ext` is not empty. A path without a
/// file name stays as it is.
pub open spec fn with_extension(p: Seq<char>, ext: Seq<char>) -> Seq<char> {
    if file_name_span(p) is None {
        p
    } else if ext.len() == 0 {
        without_extension(p)
    } else {
        without_extension(p) + seq!['.'] + ext
    }
}

/// `path` with its extension set to `ext` (see [`with_extension`]).
pub fn path_with_extension(path: &str, ext: &str) -> (r: String)
    ensures
        r@ == with_extension(path@, ext@),
{
    let p = chars_of(path);
    assert(p@.subrange(0, p@.len() as int) =~= p@);
    let has_name = file_name_range(&p, p.len()).is_some();
    let base = path_without_extension(path);
    let e = chars_of(ext);
    if !has_name || e.len() == 0 {
        return base;
    }
    let mut out = chars_of(base.as_str());
    out.push('.');
    push_range(&mut out, &e, 0, e.len());
    assert(e@.subrange(0, e@.len() as int) =~= e@);
    string_from_chars(out.as_slice())
}

} // verus!
