//! How the compiler names source paths: the normal form of a `SOURCE` path,
//! the owner of a dynamic family, and the source base that an `element:`
//! argument names.
use vstd::prelude::*;
use crate::text::{
    chars_of, find, first_occurrence, has_prefix, push_all, push_str, starts_with, string_of,
};

verus! {

/// `s` split around the first occurrence of `sep`.
pub open spec fn split_first(s: Seq<char>, sep: Seq<char>) -> Option<(Seq<char>, Seq<char>)> {
    match first_occurrence(s, sep) {
        Some(i) => Some((s.subrange(0, i), s.subrange(i + sep.len(), s.len() as int))),
        None => None,
    }
}

/// The path of a leaf of a dynamic family rooted at `root`.
pub open spec fn family_path(root: Seq<char>, tail: Seq<char>) -> Seq<char> {
    root + "[*].sources."@ + tail
}

/// The normal form of a `SOURCE` path: store sources stay as written; a
/// path under another record's `sources` belongs to a family of that
/// record's items, and a bare `sources.` path to the family of the dynamic
/// sequence root (`records` without one).
pub open spec fn normalized_source_path(path: Seq<char>, root: Option<Seq<char>>) -> Seq<char> {
    if has_prefix(path, "store.sources."@) {
        path
    } else if has_prefix(path, "sources."@) {
        let tail = path.subrange("sources."@.len() as int, path.len() as int);
        match root {
            Some(r) => family_path(r, tail),
            None => family_path("records"@, tail),
        }
    } else {
        match split_first(path, ".sources."@) {
            Some((r, t)) => if r == "store"@ {
                path
            } else {
                family_path(r, t)
            },
            None => path,
        }
    }
}

/// The owner named in the inventory for a dynamic source path.
pub open spec fn owner_label(path: Seq<char>) -> Seq<char> {
    match split_first(path, "[*]"@) {
        Some((r, _)) => r + " record"@,
        None => "dynamic record"@,
    }
}

/// The position of the first occurrence of `sep` in `v`.
pub fn find_str(v: &[char], sep: &str) -> (r: Option<usize>)
    ensures
        r matches Some(i) ==> first_occurrence(v@, sep@) == Some(i as int) && i + sep@.len() <= v@.len(),
        r is None ==> first_occurrence(v@, sep@) is None,
{
    let p = chars_of(sep);
    find(&v, &p)
}

/// Whether `v` starts with `prefix`.
pub fn starts_with_str(v: &[char], prefix: &str) -> (r: bool)
    ensures
        r == has_prefix(v@, prefix@),
{
    let p = chars_of(prefix);
    starts_with(v, &p)
}

/// `v` without `prefix`, where it starts with it.
pub fn strip_prefix_str(v: &[char], prefix: &str) -> (r: Option<Vec<char>>)
    ensures
        match r {
            Some(t) => has_prefix(v@, prefix@) && t@ == v@.subrange(prefix@.len() as int, v@.len() as int),
            None => !has_prefix(v@, prefix@),
        },
{
    let p = chars_of(prefix);
    if starts_with(v, &p) {
        Some(crate::text::slice_range(v, p.len(), v.len()))
    } else {
        None
    }
}

/// `v` split around the first occurrence of `sep`.
pub fn split_first_str(v: &[char], sep: &str) -> (r: Option<(Vec<char>, Vec<char>)>)
    ensures
        match r {
            Some((a, b)) => split_first(v@, sep@) == Some((a@, b@)),
            None => split_first(v@, sep@) is None,
        },
{
    match find_str(v, sep) {
        Some(i) => {
            let p = chars_of(sep);
            let n = p.len();
            let len = v.len();
            assert(n == sep@.len());
            Some((crate::text::slice_range(v, 0, i), crate::text::slice_range(v, i + n, len)))
        },
        None => None,
    }
}

/// The characters of a family leaf path.
fn family_path_exec(root: &[char], tail: &[char]) -> (r: String)
    ensures
        r@ == family_path(root@, tail@),
{
    let mut out: Vec<char> = Vec::new();
    push_all(&mut out, root);
    push_str(&mut out, "[*].sources.");
    push_all(&mut out, tail);
    string_of(&out)
}

/// The normal form of a `SOURCE` path.
pub fn normalize_source_path(path: &str, root: Option<&str>) -> (r: String)
    ensures
        r@ == normalized_source_path(path@, match root {
            Some(x) => Some(x@),
            None => None,
        }),
{
    let v = chars_of(path);
    if starts_with_str(&v, "store.sources.") {
        return string_of(&v);
    }
    if let Some(tail) = strip_prefix_str(&v, "sources.") {
        let r = match root {
            Some(x) => chars_of(x),
            None => chars_of("records"),
        };
        return family_path_exec(&r, &tail);
    }
    match split_first_str(&v, ".sources.") {
        Some((head, tail)) => {
            if crate::syntax::expr::is_lit(&head, "store") {
                string_of(&v)
            } else {
                family_path_exec(&head, &tail)
            }
        },
        None => string_of(&v),
    }
}

/// The owner named in the inventory for a dynamic source path.
pub fn owner_path(path: &str) -> (r: String)
    ensures
        r@ == owner_label(path@),
{
    let v = chars_of(path);
    match split_first_str(&v, "[*]") {
        Some((head, _)) => {
            let mut out = head;
            push_str(&mut out, " record");
            string_of(&out)
        },
        None => "dynamic record".to_owned(),
    }
}

} // verus!
