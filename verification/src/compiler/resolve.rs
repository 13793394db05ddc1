//! How a path written in a module finds its source in the inventory: the
//! path itself, or, for a path relative to an item (`item.` or `sources.`),
//! the dynamic family leaf that ends with it.
use vstd::prelude::*;
use crate::source::{SourceEntry, SourceInventory};
use crate::text::{chars_of, chars_of_string, contains_seq, has_prefix, has_suffix, push_all, push_str, string_of};
use super::paths::{starts_with_str, strip_prefix_str};
use super::reads::backed;

verus! {

/// Some entry of the inventory has exactly this path.
pub open spec fn in_inventory(entries: Seq<SourceEntry>, path: Seq<char>) -> bool {
    exists|i: int| 0 <= i < entries.len() && (#[trigger] entries[i]).path@ == path
}

/// The path itself, where the inventory has it.
pub fn existing_source_path(sources: &SourceInventory, path: &[char]) -> (r: Option<String>)
    ensures
        match r {
            Some(x) => x@ == path@ && in_inventory(sources.entries@, path@),
            None => !in_inventory(sources.entries@, path@),
        },
{
    let mut i: usize = 0;
    while i < sources.entries.len()
        invariant
            i <= sources.entries@.len(),
            forall|j: int| 0 <= j < i ==> (#[trigger] sources.entries@[j]).path@ != path@,
        decreases sources.entries.len() - i,
    {
        let p = chars_of_string(&sources.entries[i].path);
        if crate::text::seq_eq(&p, path) {
            return Some(string_of(path));
        }
        i = i + 1;
    }
    None
}

/// Entry `i` is a dynamic family leaf that ends with `.suffix`.
pub open spec fn family_leaf(entries: Seq<SourceEntry>, i: int, suffix: Seq<char>) -> bool {
    contains_seq(entries[i].path@, "[*]"@) && has_suffix(entries[i].path@, "."@ + suffix)
}

/// The position of the first dynamic family leaf that ends with `.suffix`.
pub open spec fn family_index(entries: Seq<SourceEntry>, suffix: Seq<char>) -> Option<int> {
    if exists|i: int| 0 <= i < entries.len() && #[trigger] family_leaf(entries, i, suffix) {
        Some(choose|i: int| 0 <= i < entries.len() && #[trigger] family_leaf(entries, i, suffix)
            && forall|j: int| 0 <= j < i ==> !family_leaf(entries, j, suffix))
    } else {
        None
    }
}

/// The first dynamic family leaf that ends with `.suffix`.
pub fn source_family_with_suffix(sources: &SourceInventory, suffix: &[char]) -> (r: Option<String>)
    ensures
        match family_index(sources.entries@, suffix@) {
            Some(i) => r matches Some(x) && x@ == sources.entries@[i].path@,
            None => r is None,
        },
        r matches Some(x) ==> in_inventory(sources.entries@, x@),
{
    let mut tail: Vec<char> = Vec::new();
    push_str(&mut tail, ".");
    push_all(&mut tail, suffix);
    let star = chars_of("[*]");
    let mut i: usize = 0;
    while i < sources.entries.len()
        invariant
            i <= sources.entries@.len(),
            tail@ == "."@ + suffix@,
            star@ == "[*]"@,
            forall|j: int| 0 <= j < i ==> !#[trigger] family_leaf(sources.entries@, j, suffix@),
        decreases sources.entries.len() - i,
    {
        let p = chars_of_string(&sources.entries[i].path);
        if crate::text::contains(&p, &star) && crate::text::ends_with(&p, &tail) {
            proof {
                assert(family_leaf(sources.entries@, i as int, suffix@));
                let w = choose|w: int| 0 <= w < sources.entries@.len() && #[trigger] family_leaf(sources.entries@, w, suffix@)
                    && forall|j: int| 0 <= j < w ==> !family_leaf(sources.entries@, j, suffix@);
                assert(w == i) by {
                    if w < i {
                        assert(!family_leaf(sources.entries@, w, suffix@));
                    }
                    if w > i {
                        assert(!family_leaf(sources.entries@, i as int, suffix@));
                    }
                }
            }
            return Some(string_of(&p));
        }
        i = i + 1;
    }
    None
}

/// The part of `path` after an `item.` or `sources.` prefix.
pub open spec fn item_suffix(path: Seq<char>) -> Option<Seq<char>> {
    if has_prefix(path, "item."@) {
        Some(path.subrange("item."@.len() as int, path.len() as int))
    } else if has_prefix(path, "sources."@) {
        Some(path.subrange("sources."@.len() as int, path.len() as int))
    } else {
        None
    }
}

/// The source a path stands for: the path itself where the inventory has
/// it, else the first family leaf that ends with its item-relative part.
pub open spec fn resolved_source(entries: Seq<SourceEntry>, path: Seq<char>) -> Option<Seq<char>> {
    if in_inventory(entries, path) {
        Some(path)
    } else {
        match item_suffix(path) {
            Some(s) => match family_index(entries, s) {
                Some(i) => Some(entries[i].path@),
                None => None,
            },
            None => None,
        }
    }
}

fn item_suffix_of(path: &[char]) -> (r: Option<Vec<char>>)
    ensures
        match item_suffix(path@) {
            Some(s) => r matches Some(v) && v@ == s,
            None => r is None,
        },
{
    match strip_prefix_str(path, "item.") {
        Some(t) => Some(t),
        None => strip_prefix_str(path, "sources."),
    }
}

proof fn lemma_dot_len()
    ensures
        "."@.len() == 1,
{
    reveal_strlit(".");
}

proof fn lemma_cut_before_dot(p: Seq<char>, mid: Seq<char>, suffix: Seq<char>, idx: int)
    requires
        mid == "."@ + suffix + "."@,
        crate::text::occurs_at(p, idx, mid),
    ensures
        has_prefix(p, p.subrange(0, idx + mid.len() - 1) + "."@),
{
    reveal_strlit(".");
    assert(p.subrange(idx, idx + mid.len()) == mid);
    assert(mid[mid.len() - 1] == '.');
    assert(p[idx + mid.len() - 1] == p.subrange(idx, idx + mid.len())[mid.len() - 1]);
    assert(p.subrange(0, idx + mid.len()) =~= p.subrange(0, idx + mid.len() - 1) + "."@);
}

/// `p` up to the last character of the first occurrence of `mid`, which
/// ends with a dot.
#[verifier::rlimit(40)]
fn cut_before(p: &[char], mid: &[char], Ghost(suffix): Ghost<Seq<char>>) -> (r: Option<Vec<char>>)
    requires
        mid@ == "."@ + suffix + "."@,
    ensures
        r matches Some(b) ==> has_prefix(p@, b@ + "."@),
        match crate::text::first_occurrence(p@, mid@) {
            Some(i) => r matches Some(b) && b@ == p@.take(i + mid@.len() - 1),
            None => r is None,
        },
{
    let n = p.len();
    let m = mid.len();
    match crate::text::find(p, mid) {
        Some(idx) => {
            proof {
                lemma_dot_len();
            }
            assert(idx + m <= n);
            let end = idx + m - 1;
            let base = crate::text::slice_range(p, 0, end);
            proof {
                lemma_cut_before_dot(p@, mid@, suffix, idx as int);
            }
            Some(base)
        },
        None => None,
    }
}

/// The source a path stands for.
pub fn resolve_source_path(sources: &SourceInventory, path: &[char]) -> (r: Option<String>)
    ensures
        match resolved_source(sources.entries@, path@) {
            Some(x) => r matches Some(s) && s@ == x,
            None => r is None,
        },
        r matches Some(s) ==> in_inventory(sources.entries@, s@),
{
    match existing_source_path(sources, path) {
        Some(x) => Some(x),
        None => match item_suffix_of(path) {
            Some(s) => source_family_with_suffix(sources, &s),
            None => None,
        },
    }
}

/// The base, ending before `mid`, of the first per-item entry from the
/// `i`-th on whose path holds `mid`.
pub open spec fn family_base(entries: Seq<SourceEntry>, mid: Seq<char>, i: int) -> Option<Seq<char>>
    decreases entries.len() - i,
{
    if i < 0 || i >= entries.len() {
        None
    } else {
        let p = entries[i].path@;
        if crate::text::contains_seq(p, "[*]"@) {
            match crate::text::first_occurrence(p, mid) {
                Some(k) => Some(p.take(k + mid.len() - 1)),
                None => family_base(entries, mid, i + 1),
            }
        } else {
            family_base(entries, mid, i + 1)
        }
    }
}

/// The base of the source that an `element:` argument at `path` names.
pub open spec fn source_base(entries: Seq<SourceEntry>, path: Seq<char>) -> Option<Seq<char>> {
    if backed(entries, path) {
        Some(path)
    } else {
        match item_suffix(path) {
            Some(s) => family_base(entries, "."@ + s + "."@, 0),
            None => None,
        }
    }
}

/// The base of a source that an `element:` argument names: a path the
/// inventory has or has leaves below, else the part of a dynamic family
/// leaf that ends with the item-relative path. Whatever it gives has a
/// leaf at or below it.
pub fn resolve_source_base(sources: &SourceInventory, path: &[char]) -> (r: Option<String>)
    ensures
        r matches Some(s) ==> backed(sources.entries@, s@),
        backed(sources.entries@, path@) ==> (r matches Some(s) && s@ == path@),
        match source_base(sources.entries@, path@) {
            Some(x) => r matches Some(s) && s@ == x,
            None => r is None,
        },
{
    if super::reads::source_path_backed(sources, path) {
        return Some(string_of(path));
    }
    let suffix = match item_suffix_of(path) {
        Some(s) => s,
        None => return None,
    };
    let mut mid: Vec<char> = Vec::new();
    push_str(&mut mid, ".");
    push_all(&mut mid, &suffix);
    push_str(&mut mid, ".");
    let star = chars_of("[*]");
    let mut i: usize = 0;
    while i < sources.entries.len()
        invariant
            i <= sources.entries@.len(),
            mid@ == "."@ + suffix@ + "."@,
            star@ == "[*]"@,
            !backed(sources.entries@, path@),
            source_base(sources.entries@, path@) == family_base(sources.entries@, mid@, i as int),
        decreases sources.entries.len() - i,
    {
        let p = chars_of_string(&sources.entries[i].path);
        if crate::text::contains(&p, &star) {
            match cut_before(&p, &mid, Ghost(suffix@)) {
                Some(base) => {
                    proof {
                        assert(has_prefix(sources.entries@[i as int].path@, base@ + "."@));
                        assert(backed(sources.entries@, base@));
                    }
                    return Some(string_of(&base));
                },
                None => {},
            }
        }
        i = i + 1;
    }
    None
}

} // verus!
