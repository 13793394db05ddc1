//! How a compiled app's sources are wired to its runtime state: which state
//! an action or a clock drives, how a list of records is fed from its
//! entry and row sources, and how a grid of cells is edited.
use vstd::prelude::*;
use crate::compiler::{
    AppIr, ExecEffect, ExecutableIr, IrCollectionPredicate, IrCollectionSeed, IrCollectionValueExpr, IrEffect,
    ExecSourceHandler, IrCollectionFieldAssignment, IrEventHandler, IrRenderKind, IrRenderNode, IrStaticField,
    IrStaticValue, ExecExpr,
};
use crate::source::{SourceEntry, SourceInventory, SourceOwner};
use crate::text::{
    chars_of, chars_of_string, ends_with, find, first_occurrence, has_prefix, has_suffix, push_str, slice_range, str_eq,
    string_of, string_of_range,
};

verus! {

/// Whether a source entry is owned by the app itself, not by a row of a
/// dynamic family.
pub fn is_static(entry: &SourceEntry) -> (r: bool)
    ensures
        r == (entry.owner is Static),
{
    match &entry.owner {
        SourceOwner::Static => true,
        _ => false,
    }
}

/// Whether the inventory has an entry at `path`.
pub open spec fn inventory_has(entries: Seq<SourceEntry>, path: Seq<char>) -> bool {
    exists|i: int| 0 <= i < entries.len() && entries[i].path@ == path
}

/// Whether the inventory has an entry at `path` that is a clock tick.
pub open spec fn is_tick_source(entries: Seq<SourceEntry>, path: Seq<char>) -> bool {
    inventory_has(entries, path) && has_suffix(path, ".event.tick"@)
}

/// Whether `path` is an inventory entry that a clock ticks.
pub fn source_shape_is_tick(inventory: &SourceInventory, path: &str) -> (r: bool)
    ensures
        r == is_tick_source(inventory.entries@, path@),
{
    let p = chars_of(path);
    let tick = chars_of(".event.tick");
    let mut i: usize = 0;
    while i < inventory.entries.len()
        invariant
            i <= inventory.entries@.len(),
            p@ == path@,
            tick@ == ".event.tick"@,
            forall|j: int| 0 <= j < i ==> !(inventory.entries@[j].path@ == path@ && has_suffix(path@, ".event.tick"@)),
        decreases inventory.entries.len() - i,
    {
        let e = chars_of_string(&inventory.entries[i].path);
        if crate::text::seq_eq(&e, &p) && ends_with(&e, &tick) {
            return true;
        }
        i = i + 1;
    }
    false
}

/// `path` itself, where the inventory has an entry at it.
pub fn existing_path(inventory: &SourceInventory, path: &str) -> (r: Option<String>)
    ensures
        r is Some <==> inventory_has(inventory.entries@, path@),
        r matches Some(p) ==> p@ == path@,
{
    let mut i: usize = 0;
    while i < inventory.entries.len()
        invariant
            i <= inventory.entries@.len(),
            forall|j: int| 0 <= j < i ==> inventory.entries@[j].path@ != path@,
        decreases inventory.entries.len() - i,
    {
        if str_eq(&inventory.entries[i].path, path) {
            return Some(path.to_string());
        }
        i = i + 1;
    }
    None
}

/// The first of the suffixes that a source path may end with, and its
/// base: the path without it.
pub open spec fn base_of(path: Seq<char>) -> Option<Seq<char>> {
    let suffixes = seq![
        ".text"@, ".checked"@, ".hovered"@, ".event.press"@, ".event.click"@, ".event.change"@,
        ".event.blur"@, ".event.focus"@, ".event.double_click"@, ".event.key_down.key"@, ".event.tick"@,
        ".event.frame"@,
    ];
    base_by(path, suffixes)
}

/// `path` without the first of `suffixes` that it ends with.
pub open spec fn base_by(path: Seq<char>, suffixes: Seq<Seq<char>>) -> Option<Seq<char>>
    decreases suffixes.len(),
{
    if suffixes.len() == 0 {
        None
    } else if has_suffix(path, suffixes[0]) && suffixes[0].len() <= path.len() {
        Some(path.take(path.len() - suffixes[0].len()))
    } else {
        base_by(path, suffixes.drop_first())
    }
}

/// The base of a source path: the path without its value or event suffix.
pub fn source_base_from_path(path: &str) -> (r: Option<String>)
    ensures
        match r {
            Some(b) => base_of(path@) == Some(b@),
            None => base_of(path@) is None,
        },
{
    let suffixes: [&str; 12] = [
        ".text", ".checked", ".hovered", ".event.press", ".event.click", ".event.change", ".event.blur",
        ".event.focus", ".event.double_click", ".event.key_down.key", ".event.tick", ".event.frame",
    ];
    let ghost all = seq![
        ".text"@, ".checked"@, ".hovered"@, ".event.press"@, ".event.click"@, ".event.change"@,
        ".event.blur"@, ".event.focus"@, ".event.double_click"@, ".event.key_down.key"@, ".event.tick"@,
        ".event.frame"@,
    ];
    assert(suffixes@.map_values(|s: &str| s@) =~= all);
    assert(base_of(path@) == base_by(path@, all));
    let v = chars_of(path);
    let mut k: usize = 0;
    assert(all.skip(0) =~= all);
    while k < 12
        invariant
            k <= 12,
            v@ == path@,
            suffixes@.map_values(|s: &str| s@) == all,
            base_of(path@) == base_by(path@, all),
            base_by(path@, all) == base_by(path@, all.skip(k as int)),
        decreases 12 - k,
    {
        let suffix = chars_of(suffixes[k]);
        assert(all[k as int] == suffix@);
        assert(all.skip(k as int).drop_first() =~= all.skip(k + 1));
        assert(all.skip(k as int)[0] == suffix@);
        if ends_with(&v, &suffix) {
            let base = string_of_range(&v, 0, v.len() - suffix.len());
            assert(v@.subrange(0, v@.len() - suffix@.len()) =~= path@.take(path@.len() - suffix@.len()));
            assert(base_by(path@, all.skip(k as int)) == Some(base@));
            return Some(base);
        }
        k = k + 1;
    }
    None
}

/// The first result that `f` gives for the items of `s`, in order.
pub open spec fn first_some<T, U>(s: Seq<T>, f: spec_fn(T) -> Option<U>) -> Option<U>
    decreases s.len(),
{
    if s.len() == 0 {
        None
    } else {
        match first_some(s.drop_last(), f) {
            Some(x) => Some(x),
            None => f(s.last()),
        }
    }
}

pub proof fn lemma_first_some_step<T, U>(s: Seq<T>, f: spec_fn(T) -> Option<U>, i: int)
    requires
        0 <= i < s.len(),
    ensures
        first_some(s.take(i + 1), f) == match first_some(s.take(i), f) {
            Some(x) => Some(x),
            None => f(s[i]),
        },
{
    assert(s.take(i + 1).drop_last() =~= s.take(i));
}

pub proof fn lemma_first_some_prefix<T, U>(s: Seq<T>, f: spec_fn(T) -> Option<U>, k: int)
    requires
        0 <= k <= s.len(),
        first_some(s.take(k), f) is Some,
    ensures
        first_some(s, f) == first_some(s.take(k), f),
    decreases s.len() - k,
{
    if k < s.len() {
        lemma_first_some_step(s, f, k);
        lemma_first_some_prefix(s, f, k + 1);
    } else {
        assert(s.take(k) =~= s);
    }
}

pub proof fn lemma_first_some_all<T, U>(s: Seq<T>, f: spec_fn(T) -> Option<U>)
    ensures
        first_some(s.take(s.len() as int), f) == first_some(s, f),
{
    assert(s.take(s.len() as int) =~= s);
}

/// The text after the last `.` of `s`, or all of it.
pub open spec fn last_segment(s: Seq<char>) -> Seq<char>
    decreases s.len(),
{
    if s.len() == 0 {
        s
    } else if s.last() == '.' {
        Seq::empty()
    } else {
        last_segment(s.drop_last()).push(s.last())
    }
}

/// The root of a dynamic family such as `store.todos[*]`: its last
/// segment without the `[*]`.
pub open spec fn family_root(family: Seq<char>) -> Seq<char> {
    let bare = if has_suffix(family, "[*]"@) && family.len() >= 3 { family.take(family.len() - 3) } else { family };
    last_segment(bare)
}

/// The root of a dynamic family such as `store.todos[*]`: its last
/// segment without the `[*]`.
pub fn dynamic_family_root(family: &str) -> (r: String)
    ensures
        r@ == family_root(family@),
{
    let v = chars_of(family);
    let star = chars_of("[*]");
    proof {
        reveal_strlit("[*]");
    }
    let end = if ends_with(&v, &star) { v.len() - 3 } else { v.len() };
    let ghost bare = v@.take(end as int);
    assert(bare == (if has_suffix(family@, "[*]"@) && family@.len() >= 3 { family@.take(family@.len() - 3) } else { family@ })) by {
        if end == v.len() {
            assert(v@.take(end as int) =~= v@);
        }
    }
    let mut start = end;
    while start > 0 && v[start - 1] != '.'
        invariant
            start <= end <= v@.len(),
            bare == v@.take(end as int),
            last_segment(bare) == last_segment(v@.take(start as int)) + v@.subrange(start as int, end as int),
        decreases start,
    {
        let ghost t = v@.take(start as int);
        assert(t.drop_last() =~= v@.take(start - 1));
        assert(v@.subrange(start - 1, end as int) =~= seq![t.last()] + v@.subrange(start as int, end as int));
        assert(last_segment(t) == last_segment(v@.take(start - 1)).push(t.last()));
        assert(last_segment(v@.take(start - 1)).push(t.last()) + v@.subrange(start as int, end as int)
            =~= last_segment(v@.take(start - 1)) + v@.subrange(start - 1, end as int));
        start = start - 1;
    }
    proof {
        if start == 0 {
            assert(v@.take(0).len() == 0);
        } else {
            assert(v@.take(start as int).last() == '.');
        }
        assert(last_segment(v@.take(start as int)) =~= Seq::<char>::empty());
        assert(last_segment(bare) =~= v@.subrange(start as int, end as int));
    }
    string_of_range(&v, start, end)
}

/// The family of a dynamic source base such as
/// `store.todos[*].sources.checkbox`: the part before `.sources.`, where it
/// has a `[*]`.
pub open spec fn family_of_base(path: Seq<char>) -> Option<Seq<char>> {
    match first_occurrence(path, ".sources."@) {
        Some(i) => if crate::text::contains_seq(path.take(i), "[*]"@) {
            Some(path.take(i))
        } else {
            None
        },
        None => None,
    }
}

/// The dynamic family of a source base, if it belongs to one.
#[verifier::spinoff_prover]
pub fn dynamic_family_from_source_base(path: &str) -> (r: Option<String>)
    ensures
        match r {
            Some(f) => family_of_base(path@) == Some(f@),
            None => family_of_base(path@) is None,
        },
{
    let v = chars_of(path);
    let marker = chars_of(".sources.");
    let star = chars_of("[*]");
    let found = find(&v, &marker);
    assert(found matches Some(i) ==> first_occurrence(path@, ".sources."@) == Some(i as int));
    assert(found is None ==> first_occurrence(path@, ".sources."@) is None);
    match found {
        Some(i) => {
            let family = slice_range(&v, 0, i);
            assert(family@ =~= path@.take(i as int));
            let starred = crate::text::contains(&family, &star);
            assert(starred == crate::text::contains_seq(path@.take(i as int), "[*]"@));
            if starred {
                Some(string_of(&family))
            } else {
                None
            }
        },
        None => None,
    }
}

/// The list an effect changes, if it changes one.
pub open spec fn effect_collection(e: IrEffect) -> Option<Seq<char>> {
    match e {
        IrEffect::CollectionAppendRecord { collection_path, .. } => Some(collection_path@),
        IrEffect::CollectionUpdateAllFields { collection_path, .. } => Some(collection_path@),
        IrEffect::CollectionUpdateOwnerField { collection_path, .. } => Some(collection_path@),
        IrEffect::CollectionRemoveCurrent { collection_path } => Some(collection_path@),
        IrEffect::CollectionRemoveWhere { collection_path, .. } => Some(collection_path@),
        _ => None,
    }
}

pub open spec fn collection_of() -> spec_fn(IrEffect) -> Option<Seq<char>> {
    |e: IrEffect| effect_collection(e)
}

pub open spec fn handler_collection() -> spec_fn(IrEventHandler) -> Option<Seq<char>> {
    |h: IrEventHandler| first_some(h.effects@, collection_of())
}

fn effect_collection_path(e: &IrEffect) -> (r: Option<String>)
    ensures
        match r {
            Some(p) => effect_collection(*e) == Some(p@),
            None => effect_collection(*e) is None,
        },
{
    match e {
        IrEffect::CollectionAppendRecord { collection_path, .. } => Some(collection_path.clone()),
        IrEffect::CollectionUpdateAllFields { collection_path, .. } => Some(collection_path.clone()),
        IrEffect::CollectionUpdateOwnerField { collection_path, .. } => Some(collection_path.clone()),
        IrEffect::CollectionRemoveCurrent { collection_path } => Some(collection_path.clone()),
        IrEffect::CollectionRemoveWhere { collection_path, .. } => Some(collection_path.clone()),
        _ => None,
    }
}

fn handler_collection_path(h: &IrEventHandler) -> (r: Option<String>)
    ensures
        match r {
            Some(p) => first_some(h.effects@, collection_of()) == Some(p@),
            None => first_some(h.effects@, collection_of()) is None,
        },
{
    let mut j: usize = 0;
    while j < h.effects.len()
        invariant
            j <= h.effects@.len(),
            first_some(h.effects@.take(j as int), collection_of()) is None,
        decreases h.effects.len() - j,
    {
        proof {
            lemma_first_some_step(h.effects@, collection_of(), j as int);
        }
        match effect_collection_path(&h.effects[j]) {
            Some(p) => {
                proof {
                    lemma_first_some_prefix(h.effects@, collection_of(), j + 1);
                }
                return Some(p);
            },
            None => {},
        }
        j = j + 1;
    }
    proof {
        lemma_first_some_all(h.effects@, collection_of());
    }
    None
}

/// The list that the first list effect of the app's handlers changes.
pub fn first_collection_effect_path(app_ir: &AppIr) -> (r: Option<String>)
    ensures
        match r {
            Some(p) => first_some(app_ir.event_handlers@, handler_collection()) == Some(p@),
            None => first_some(app_ir.event_handlers@, handler_collection()) is None,
        },
{
    let mut i: usize = 0;
    while i < app_ir.event_handlers.len()
        invariant
            i <= app_ir.event_handlers@.len(),
            first_some(app_ir.event_handlers@.take(i as int), handler_collection()) is None,
        decreases app_ir.event_handlers.len() - i,
    {
        proof {
            lemma_first_some_step(app_ir.event_handlers@, handler_collection(), i as int);
        }
        match handler_collection_path(&app_ir.event_handlers[i]) {
            Some(p) => {
                proof {
                    assert(handler_collection()(app_ir.event_handlers@[i as int]) == first_some(app_ir.event_handlers@[i as int].effects@, collection_of()));
                    lemma_first_some_prefix(app_ir.event_handlers@, handler_collection(), i + 1);
                }
                return Some(p);
            },
            None => {},
        }
        i = i + 1;
    }
    proof {
        lemma_first_some_all(app_ir.event_handlers@, handler_collection());
    }
    None
}

/// The key of a field that holds a text.
pub open spec fn text_key(f: IrStaticField) -> Option<Seq<char>> {
    match f.value {
        IrStaticValue::Text { .. } => Some(f.key@),
        _ => None,
    }
}

pub open spec fn text_key_of() -> spec_fn(IrStaticField) -> Option<Seq<char>> {
    |f: IrStaticField| text_key(f)
}

pub open spec fn seed_text_key() -> spec_fn(IrCollectionSeed) -> Option<Seq<char>> {
    |s: IrCollectionSeed| first_some(s.fields@, text_key_of())
}

fn seed_text_field(seed: &IrCollectionSeed) -> (r: Option<String>)
    ensures
        match r {
            Some(k) => first_some(seed.fields@, text_key_of()) == Some(k@),
            None => first_some(seed.fields@, text_key_of()) is None,
        },
{
    let mut j: usize = 0;
    while j < seed.fields.len()
        invariant
            j <= seed.fields@.len(),
            first_some(seed.fields@.take(j as int), text_key_of()) is None,
        decreases seed.fields.len() - j,
    {
        proof {
            lemma_first_some_step(seed.fields@, text_key_of(), j as int);
        }
        match &seed.fields[j].value {
            IrStaticValue::Text { .. } => {
                proof {
                    lemma_first_some_prefix(seed.fields@, text_key_of(), j + 1);
                }
                return Some(seed.fields[j].key.clone());
            },
            _ => {},
        }
        j = j + 1;
    }
    proof {
        lemma_first_some_all(seed.fields@, text_key_of());
    }
    None
}

/// The key of the first text field of the seed records.
pub fn first_text_field(seeds: &[IrCollectionSeed]) -> (r: Option<String>)
    ensures
        match r {
            Some(k) => first_some(seeds@, seed_text_key()) == Some(k@),
            None => first_some(seeds@, seed_text_key()) is None,
        },
{
    let mut i: usize = 0;
    while i < seeds.len()
        invariant
            i <= seeds@.len(),
            first_some(seeds@.take(i as int), seed_text_key()) is None,
        decreases seeds.len() - i,
    {
        proof {
            lemma_first_some_step(seeds@, seed_text_key(), i as int);
        }
        match seed_text_field(&seeds[i]) {
            Some(k) => {
                proof {
                    lemma_first_some_prefix(seeds@, seed_text_key(), i + 1);
                }
                return Some(k);
            },
            None => {},
        }
        i = i + 1;
    }
    proof {
        lemma_first_some_all(seeds@, seed_text_key());
    }
    None
}

/// The first node of the tree, in pre-order, of the given kind.
pub open spec fn node_of_kind(n: IrRenderNode, kind: IrRenderKind) -> Option<IrRenderNode>
    decreases n, 1int,
{
    if n.kind == kind {
        Some(n)
    } else {
        node_of_kind_in(n.children@, kind)
    }
}

/// The first node of the trees, in pre-order, of the given kind.
pub open spec fn node_of_kind_in(s: Seq<IrRenderNode>, kind: IrRenderKind) -> Option<IrRenderNode>
    decreases s, 0int,
{
    if s.len() == 0 {
        None
    } else {
        proof {
            assert(decreases_to!(s => s[s.len() - 1]));
        }
        match node_of_kind_in(s.drop_last(), kind) {
            Some(x) => Some(x),
            None => node_of_kind(s[s.len() - 1], kind),
        }
    }
}

proof fn lemma_node_of_kind_prefix(s: Seq<IrRenderNode>, kind: IrRenderKind, k: int)
    requires
        0 <= k <= s.len(),
        node_of_kind_in(s.take(k), kind) is Some,
    ensures
        node_of_kind_in(s, kind) == node_of_kind_in(s.take(k), kind),
    decreases s.len() - k,
{
    if k < s.len() {
        assert(s.take(k + 1).drop_last() =~= s.take(k));
        lemma_node_of_kind_prefix(s, kind, k + 1);
    } else {
        assert(s.take(k) =~= s);
    }
}

/// The first node of the tree, in pre-order, of the given kind.
pub fn find_render_node_kind(node: &IrRenderNode, kind: IrRenderKind) -> (r: Option<&IrRenderNode>)
    ensures
        match r {
            Some(x) => node_of_kind(*node, kind) == Some(*x),
            None => node_of_kind(*node, kind) is None,
        },
    decreases *node, 1int,
{
    if node.kind == kind {
        return Some(node);
    }
    find_kind_in(&node.children, kind)
}

fn find_kind_in(nodes: &Vec<IrRenderNode>, kind: IrRenderKind) -> (r: Option<&IrRenderNode>)
    ensures
        match r {
            Some(x) => node_of_kind_in(nodes@, kind) == Some(*x),
            None => node_of_kind_in(nodes@, kind) is None,
        },
    decreases nodes@, 0int,
{
    let mut i: usize = 0;
    while i < nodes.len()
        invariant
            i <= nodes@.len(),
            node_of_kind_in(nodes@.take(i as int), kind) is None,
        decreases nodes.len() - i,
    {
        proof {
            assert(decreases_to!(nodes@ => nodes@[i as int]));
            assert(nodes@.take(i + 1).drop_last() =~= nodes@.take(i as int));
            assert(nodes@.take(i + 1)[i as int] == nodes@[i as int]);
        }
        match find_render_node_kind(&nodes[i], kind) {
            Some(x) => {
                proof {
                    lemma_node_of_kind_prefix(nodes@, kind, i + 1);
                }
                return Some(x);
            },
            None => {},
        }
        i = i + 1;
    }
    assert(nodes@.take(nodes@.len() as int) =~= nodes@);
    None
}

/// Which source path a search takes from a node: for `0`, the path of a
/// node of the given kind; for `1`, the same where the path belongs to no
/// dynamic family; for `2`, any path that belongs to a dynamic family.
pub open spec fn path_hit(n: IrRenderNode, mode: u8, kind: IrRenderKind) -> Option<Seq<char>> {
    match n.source_path {
        Some(p) => if mode == 0 {
            if n.kind == kind { Some(p@) } else { None }
        } else if mode == 1 {
            if n.kind == kind && family_of_base(p@) is None { Some(p@) } else { None }
        } else {
            if family_of_base(p@) is Some { Some(p@) } else { None }
        },
        None => None,
    }
}

/// The first source path, in pre-order, that the search takes.
pub open spec fn first_path(n: IrRenderNode, mode: u8, kind: IrRenderKind) -> Option<Seq<char>>
    decreases n, 1int,
{
    match path_hit(n, mode, kind) {
        Some(p) => Some(p),
        None => first_path_in(n.children@, mode, kind),
    }
}

pub open spec fn first_path_in(s: Seq<IrRenderNode>, mode: u8, kind: IrRenderKind) -> Option<Seq<char>>
    decreases s, 0int,
{
    if s.len() == 0 {
        None
    } else {
        proof {
            assert(decreases_to!(s => s[s.len() - 1]));
        }
        match first_path_in(s.drop_last(), mode, kind) {
            Some(x) => Some(x),
            None => first_path(s[s.len() - 1], mode, kind),
        }
    }
}

proof fn lemma_first_path_prefix(s: Seq<IrRenderNode>, mode: u8, kind: IrRenderKind, k: int)
    requires
        0 <= k <= s.len(),
        first_path_in(s.take(k), mode, kind) is Some,
    ensures
        first_path_in(s, mode, kind) == first_path_in(s.take(k), mode, kind),
    decreases s.len() - k,
{
    if k < s.len() {
        assert(s.take(k + 1).drop_last() =~= s.take(k));
        lemma_first_path_prefix(s, mode, kind, k + 1);
    } else {
        assert(s.take(k) =~= s);
    }
}

fn node_path_hit(n: &IrRenderNode, mode: u8, kind: IrRenderKind) -> (r: Option<String>)
    ensures
        match r {
            Some(p) => path_hit(*n, mode, kind) == Some(p@),
            None => path_hit(*n, mode, kind) is None,
        },
{
    match &n.source_path {
        Some(p) => {
            if mode == 0 {
                if n.kind == kind { Some(p.clone()) } else { None }
            } else if mode == 1 {
                if n.kind == kind && dynamic_family_from_source_base(p.as_str()).is_none() { Some(p.clone()) } else { None }
            } else {
                if dynamic_family_from_source_base(p.as_str()).is_some() { Some(p.clone()) } else { None }
            }
        },
        None => None,
    }
}

fn search_path(node: &IrRenderNode, mode: u8, kind: IrRenderKind) -> (r: Option<String>)
    ensures
        match r {
            Some(p) => first_path(*node, mode, kind) == Some(p@),
            None => first_path(*node, mode, kind) is None,
        },
    decreases *node, 1int,
{
    match node_path_hit(node, mode, kind) {
        Some(p) => Some(p),
        None => search_path_in(&node.children, mode, kind),
    }
}

fn search_path_in(nodes: &Vec<IrRenderNode>, mode: u8, kind: IrRenderKind) -> (r: Option<String>)
    ensures
        match r {
            Some(p) => first_path_in(nodes@, mode, kind) == Some(p@),
            None => first_path_in(nodes@, mode, kind) is None,
        },
    decreases nodes@, 0int,
{
    let mut i: usize = 0;
    while i < nodes.len()
        invariant
            i <= nodes@.len(),
            first_path_in(nodes@.take(i as int), mode, kind) is None,
        decreases nodes.len() - i,
    {
        proof {
            assert(decreases_to!(nodes@ => nodes@[i as int]));
            assert(nodes@.take(i + 1).drop_last() =~= nodes@.take(i as int));
            assert(nodes@.take(i + 1)[i as int] == nodes@[i as int]);
        }
        match search_path(&nodes[i], mode, kind) {
            Some(p) => {
                proof {
                    lemma_first_path_prefix(nodes@, mode, kind, i + 1);
                }
                return Some(p);
            },
            None => {},
        }
        i = i + 1;
    }
    assert(nodes@.take(nodes@.len() as int) =~= nodes@);
    None
}

/// The source path of the first node of the given kind that has one.
pub fn first_source_path_for_kind(node: &IrRenderNode, kind: IrRenderKind) -> (r: Option<String>)
    ensures
        match r {
            Some(p) => first_path(*node, 0, kind) == Some(p@),
            None => first_path(*node, 0, kind) is None,
        },
{
    search_path(node, 0, kind)
}

/// The source path of the first node of the given kind that has one
/// belonging to no dynamic family.
pub fn first_static_source_path_for_kind(node: &IrRenderNode, kind: IrRenderKind) -> (r: Option<String>)
    ensures
        match r {
            Some(p) => first_path(*node, 1, kind) == Some(p@),
            None => first_path(*node, 1, kind) is None,
        },
{
    search_path(node, 1, kind)
}

/// The first source path of the tree that belongs to a dynamic family.
pub fn first_dynamic_source_path(node: &IrRenderNode) -> (r: Option<String>)
    ensures
        match r {
            Some(p) => first_path(*node, 2, IrRenderKind::Root) == Some(p@),
            None => first_path(*node, 2, IrRenderKind::Root) is None,
        },
{
    search_path(node, 2, IrRenderKind::Root)
}

/// The text source a list field is filled from.
pub open spec fn field_source_text(f: IrCollectionFieldAssignment) -> Option<Seq<char>> {
    match f.value {
        IrCollectionValueExpr::SourceText { path, .. } => Some(path@),
        _ => None,
    }
}

/// The field that is filled from a text source.
pub open spec fn field_fed_by_text(f: IrCollectionFieldAssignment) -> Option<Seq<char>> {
    match f.value {
        IrCollectionValueExpr::SourceText { .. } => Some(f.field@),
        _ => None,
    }
}

pub open spec fn field_pick(mode: u8) -> spec_fn(IrCollectionFieldAssignment) -> Option<Seq<char>> {
    |f: IrCollectionFieldAssignment| if mode == 1 { field_source_text(f) } else { field_fed_by_text(f) }
}

/// What a search over the app's effects takes from one effect: for `1`,
/// the text source that an appended record's field is filled from; for
/// `2`, the field so filled; for `3`, the boolean field that an update or a
/// removal looks at.
pub open spec fn effect_pick(e: IrEffect, mode: u8) -> Option<Seq<char>> {
    if mode == 3 {
        match e {
            IrEffect::CollectionUpdateAllFields { field, .. } => Some(field@),
            IrEffect::CollectionUpdateOwnerField { field, .. } => Some(field@),
            IrEffect::CollectionRemoveWhere { predicate: IrCollectionPredicate::FieldBoolEquals { field, .. }, .. } => Some(field@),
            _ => None,
        }
    } else {
        match e {
            IrEffect::CollectionAppendRecord { fields, .. } => first_some(fields@, field_pick(mode)),
            _ => None,
        }
    }
}

pub open spec fn effect_pick_of(mode: u8) -> spec_fn(IrEffect) -> Option<Seq<char>> {
    |e: IrEffect| effect_pick(e, mode)
}

pub open spec fn handler_pick_of(mode: u8) -> spec_fn(IrEventHandler) -> Option<Seq<char>> {
    |h: IrEventHandler| first_some(h.effects@, effect_pick_of(mode))
}

fn fields_pick(fields: &Vec<IrCollectionFieldAssignment>, mode: u8) -> (r: Option<String>)
    requires
        mode == 1 || mode == 2,
    ensures
        match r {
            Some(p) => first_some(fields@, field_pick(mode)) == Some(p@),
            None => first_some(fields@, field_pick(mode)) is None,
        },
{
    let mut j: usize = 0;
    while j < fields.len()
        invariant
            j <= fields@.len(),
            mode == 1 || mode == 2,
            first_some(fields@.take(j as int), field_pick(mode)) is None,
        decreases fields.len() - j,
    {
        proof {
            lemma_first_some_step(fields@, field_pick(mode), j as int);
        }
        match &fields[j].value {
            IrCollectionValueExpr::SourceText { path, .. } => {
                proof {
                    lemma_first_some_prefix(fields@, field_pick(mode), j + 1);
                }
                if mode == 1 {
                    return Some(path.clone());
                } else {
                    return Some(fields[j].field.clone());
                }
            },
            _ => {},
        }
        j = j + 1;
    }
    proof {
        lemma_first_some_all(fields@, field_pick(mode));
    }
    None
}

fn effect_pick_exec(e: &IrEffect, mode: u8) -> (r: Option<String>)
    requires
        1 <= mode <= 3,
    ensures
        match r {
            Some(p) => effect_pick(*e, mode) == Some(p@),
            None => effect_pick(*e, mode) is None,
        },
{
    if mode == 3 {
        match e {
            IrEffect::CollectionUpdateAllFields { field, .. } => Some(field.clone()),
            IrEffect::CollectionUpdateOwnerField { field, .. } => Some(field.clone()),
            IrEffect::CollectionRemoveWhere { predicate: IrCollectionPredicate::FieldBoolEquals { field, .. }, .. } => Some(field.clone()),
            _ => None,
        }
    } else {
        match e {
            IrEffect::CollectionAppendRecord { fields, .. } => fields_pick(fields, mode),
            _ => None,
        }
    }
}

fn handler_pick(h: &IrEventHandler, mode: u8) -> (r: Option<String>)
    requires
        1 <= mode <= 3,
    ensures
        match r {
            Some(p) => first_some(h.effects@, effect_pick_of(mode)) == Some(p@),
            None => first_some(h.effects@, effect_pick_of(mode)) is None,
        },
{
    let mut j: usize = 0;
    while j < h.effects.len()
        invariant
            j <= h.effects@.len(),
            1 <= mode <= 3,
            first_some(h.effects@.take(j as int), effect_pick_of(mode)) is None,
        decreases h.effects.len() - j,
    {
        proof {
            lemma_first_some_step(h.effects@, effect_pick_of(mode), j as int);
        }
        match effect_pick_exec(&h.effects[j], mode) {
            Some(p) => {
                proof {
                    lemma_first_some_prefix(h.effects@, effect_pick_of(mode), j + 1);
                }
                return Some(p);
            },
            None => {},
        }
        j = j + 1;
    }
    proof {
        lemma_first_some_all(h.effects@, effect_pick_of(mode));
    }
    None
}

/// The first thing the search takes from the effects of the app's
/// handlers, in order.
fn app_pick(app_ir: &AppIr, mode: u8) -> (r: Option<String>)
    requires
        1 <= mode <= 3,
    ensures
        match r {
            Some(p) => first_some(app_ir.event_handlers@, handler_pick_of(mode)) == Some(p@),
            None => first_some(app_ir.event_handlers@, handler_pick_of(mode)) is None,
        },
{
    let mut i: usize = 0;
    while i < app_ir.event_handlers.len()
        invariant
            i <= app_ir.event_handlers@.len(),
            1 <= mode <= 3,
            first_some(app_ir.event_handlers@.take(i as int), handler_pick_of(mode)) is None,
        decreases app_ir.event_handlers.len() - i,
    {
        proof {
            lemma_first_some_step(app_ir.event_handlers@, handler_pick_of(mode), i as int);
        }
        match handler_pick(&app_ir.event_handlers[i], mode) {
            Some(p) => {
                proof {
                    assert(handler_pick_of(mode)(app_ir.event_handlers@[i as int]) == first_some(app_ir.event_handlers@[i as int].effects@, effect_pick_of(mode)));
                    lemma_first_some_prefix(app_ir.event_handlers@, handler_pick_of(mode), i + 1);
                }
                return Some(p);
            },
            None => {},
        }
        i = i + 1;
    }
    proof {
        lemma_first_some_all(app_ir.event_handlers@, handler_pick_of(mode));
    }
    None
}

/// `base` followed by `suffix`, where the inventory has an entry at it.
pub open spec fn existing_at(entries: Seq<SourceEntry>, base: Seq<char>, suffix: Seq<char>) -> Option<Seq<char>> {
    if inventory_has(entries, base + suffix) {
        Some(base + suffix)
    } else {
        None
    }
}

fn existing_with(inventory: &SourceInventory, base: &String, suffix: &str) -> (r: Option<String>)
    ensures
        match r {
            Some(p) => existing_at(inventory.entries@, base@, suffix@) == Some(p@),
            None => existing_at(inventory.entries@, base@, suffix@) is None,
        },
{
    let mut v = chars_of(base.as_str());
    push_str(&mut v, suffix);
    let path = string_of(&v);
    existing_path(inventory, path.as_str())
}

/// `base` followed by `suffix`, if there is a base.
pub open spec fn opt_join(base: Option<Seq<char>>, suffix: Seq<char>) -> Option<Seq<char>> {
    match base {
        Some(b) => Some(b + suffix),
        None => None,
    }
}

/// `base` followed by `suffix` where the inventory has it, if there is a
/// base.
pub open spec fn opt_existing(entries: Seq<SourceEntry>, base: Option<Seq<char>>, suffix: Seq<char>) -> Option<Seq<char>> {
    match base {
        Some(b) => existing_at(entries, b, suffix),
        None => None,
    }
}

fn joined(base: &Option<String>, suffix: &str) -> (r: Option<String>)
    ensures
        opt_view(r) == opt_join(opt_view(*base), suffix@),
{
    match base {
        Some(b) => {
            let mut v = chars_of(b.as_str());
            push_str(&mut v, suffix);
            Some(string_of(&v))
        },
        None => None,
    }
}

fn existing_opt(inventory: &SourceInventory, base: &Option<String>, suffix: &str) -> (r: Option<String>)
    ensures
        opt_view(r) == opt_existing(inventory.entries@, opt_view(*base), suffix@),
{
    match base {
        Some(b) => existing_with(inventory, b, suffix),
        None => None,
    }
}

/// The view of an optional string.
pub open spec fn opt_view(o: Option<String>) -> Option<Seq<char>> {
    match o {
        Some(x) => Some(x@),
        None => None,
    }
}

/// The path of a static key-down source.
pub open spec fn static_key_source(e: SourceEntry) -> Option<Seq<char>> {
    if has_suffix(e.path@, ".event.key_down.key"@) && e.owner is Static {
        Some(e.path@)
    } else {
        None
    }
}

pub open spec fn static_key_source_of() -> spec_fn(SourceEntry) -> Option<Seq<char>> {
    |e: SourceEntry| static_key_source(e)
}

fn first_static_key_source(inventory: &SourceInventory) -> (r: Option<String>)
    ensures
        opt_view(r) == first_some(inventory.entries@, static_key_source_of()),
{
    let suffix = chars_of(".event.key_down.key");
    let mut i: usize = 0;
    while i < inventory.entries.len()
        invariant
            i <= inventory.entries@.len(),
            suffix@ == ".event.key_down.key"@,
            first_some(inventory.entries@.take(i as int), static_key_source_of()) is None,
        decreases inventory.entries.len() - i,
    {
        proof {
            lemma_first_some_step(inventory.entries@, static_key_source_of(), i as int);
        }
        let e = &inventory.entries[i];
        if ends_with(&chars_of_string(&e.path), &suffix) && is_static(e) {
            proof {
                lemma_first_some_prefix(inventory.entries@, static_key_source_of(), i + 1);
            }
            return Some(e.path.clone());
        }
        i = i + 1;
    }
    proof {
        lemma_first_some_all(inventory.entries@, static_key_source_of());
    }
    None
}

/// How a grid of cells is edited: the dynamic family of its cells and its
/// root, the double click that opens a cell, the editor's text and key
/// sources, and the key source of the grid's viewport.
pub struct IndexedSourceWiring {
    pub family: String,
    pub root: String,
    pub display_double_click: Option<String>,
    pub editor_text: Option<String>,
    pub editor_key: Option<String>,
    pub viewport_key: Option<String>,
}

/// The view of an [`IndexedSourceWiring`].
pub struct GridWiringModel {
    pub family: Seq<char>,
    pub root: Seq<char>,
    pub display_double_click: Option<Seq<char>>,
    pub editor_text: Option<Seq<char>>,
    pub editor_key: Option<Seq<char>>,
    pub viewport_key: Option<Seq<char>>,
}

/// How the grid of the render tree is edited, if it has a grid whose
/// editor or display belongs to a dynamic family.
pub open spec fn grid_wiring(tree: IrRenderNode, entries: Seq<SourceEntry>) -> Option<GridWiringModel> {
    match node_of_kind(tree, IrRenderKind::Grid) {
        Some(grid) => {
            let editor = first_path(grid, 0, IrRenderKind::TextInput);
            let display = first_path(grid, 0, IrRenderKind::Label);
            let base = if editor is Some { editor } else { display };
            match base {
                Some(b) => match family_of_base(b) {
                    Some(family) => Some(GridWiringModel {
                        family,
                        root: family_root(family),
                        display_double_click: opt_existing(entries, display, ".event.double_click"@),
                        editor_text: opt_join(editor, ".text"@),
                        editor_key: opt_existing(entries, editor, ".event.key_down.key"@),
                        viewport_key: match opt_existing(entries, opt_view(grid.source_path), ".event.key_down.key"@) {
                            Some(k) => Some(k),
                            None => first_some(entries, static_key_source_of()),
                        },
                    }),
                    None => None,
                },
                None => None,
            }
        },
        None => None,
    }
}

impl IndexedSourceWiring {
    pub open spec fn model(&self) -> GridWiringModel {
        GridWiringModel {
            family: self.family@,
            root: self.root@,
            display_double_click: opt_view(self.display_double_click),
            editor_text: opt_view(self.editor_text),
            editor_key: opt_view(self.editor_key),
            viewport_key: opt_view(self.viewport_key),
        }
    }

    /// The grid wiring of a render tree.
    pub fn from_render_tree(tree: &IrRenderNode, inventory: &SourceInventory) -> (r: Option<IndexedSourceWiring>)
        ensures
            match r {
                Some(w) => grid_wiring(*tree, inventory.entries@) == Some(w.model()),
                None => grid_wiring(*tree, inventory.entries@) is None,
            },
    {
        let grid = match find_render_node_kind(tree, IrRenderKind::Grid) {
            Some(g) => g,
            None => return None,
        };
        let editor_base = first_source_path_for_kind(grid, IrRenderKind::TextInput);
        let display_base = first_source_path_for_kind(grid, IrRenderKind::Label);
        let base = match &editor_base {
            Some(b) => b.clone(),
            None => match &display_base {
                Some(b) => b.clone(),
                None => return None,
            },
        };
        let family = match dynamic_family_from_source_base(base.as_str()) {
            Some(f) => f,
            None => return None,
        };
        let root = dynamic_family_root(family.as_str());
        let viewport_key = match existing_opt(inventory, &grid.source_path, ".event.key_down.key") {
            Some(k) => Some(k),
            None => first_static_key_source(inventory),
        };
        let display_double_click = existing_opt(inventory, &display_base, ".event.double_click");
        let editor_text = joined(&editor_base, ".text");
        let editor_key = existing_opt(inventory, &editor_base, ".event.key_down.key");
        let r = IndexedSourceWiring { family, root, display_double_click, editor_text, editor_key, viewport_key };
        assert(grid_wiring(*tree, inventory.entries@) == Some(r.model()));
        Some(r)
    }
}

/// The first of two optional texts that is there.
pub open spec fn or_else(a: Option<Seq<char>>, b: Option<Seq<char>>) -> Option<Seq<char>> {
    if a is Some {
        a
    } else {
        b
    }
}

/// How a list of records is fed: the dynamic family of its rows and the
/// list's root, the field that holds a row's text and the boolean field
/// its controls toggle, the field a row's editor focuses, the entry's text
/// source and its focus, blur and change events, and a row editor's text,
/// key, blur and change sources.
pub struct CollectionSourceWiring {
    pub family: String,
    pub root: String,
    pub text_field: String,
    pub bool_field: Option<String>,
    pub edit_focus_field: Option<String>,
    pub entry_text: Option<String>,
    pub input_focus: Option<String>,
    pub input_blur: Option<String>,
    pub input_change: Option<String>,
    pub dynamic_text_value: Option<String>,
    pub dynamic_text_key: Option<String>,
    pub dynamic_text_blur: Option<String>,
    pub dynamic_text_change: Option<String>,
}

/// The view of a [`CollectionSourceWiring`].
pub struct ListWiringModel {
    pub family: Seq<char>,
    pub root: Seq<char>,
    pub text_field: Seq<char>,
    pub bool_field: Option<Seq<char>>,
    pub edit_focus_field: Option<Seq<char>>,
    pub entry_text: Option<Seq<char>>,
    pub input_focus: Option<Seq<char>>,
    pub input_blur: Option<Seq<char>>,
    pub input_change: Option<Seq<char>>,
    pub dynamic_text_value: Option<Seq<char>>,
    pub dynamic_text_key: Option<Seq<char>>,
    pub dynamic_text_blur: Option<Seq<char>>,
    pub dynamic_text_change: Option<Seq<char>>,
}

/// The list node of the render tree, if any.
pub open spec fn mapped_node(tree: Option<IrRenderNode>) -> Option<IrRenderNode> {
    match tree {
        Some(t) => node_of_kind(t, IrRenderKind::ListMap),
        None => None,
    }
}

/// The source base of the first text input under the list node.
pub open spec fn mapped_text_base(tree: Option<IrRenderNode>) -> Option<Seq<char>> {
    match mapped_node(tree) {
        Some(m) => first_path(m, 0, IrRenderKind::TextInput),
        None => None,
    }
}

/// The dynamic family of the list's rows, from its text input or else its
/// first dynamic source.
pub open spec fn mapped_family(tree: Option<IrRenderNode>) -> Option<Seq<char>> {
    let action = match mapped_node(tree) {
        Some(m) => first_path(m, 2, IrRenderKind::Root),
        None => None,
    };
    match or_else(mapped_text_base(tree), action) {
        Some(b) => family_of_base(b),
        None => None,
    }
}

/// The root of the list: the root of its rows' family, else the list
/// node's collection, else the first list an effect changes, else the
/// first list state.
pub open spec fn list_root(app: AppIr, tree: Option<IrRenderNode>) -> Option<Seq<char>> {
    let from_family = match mapped_family(tree) {
        Some(f) => Some(family_root(f)),
        None => None,
    };
    let from_node = match mapped_node(tree) {
        Some(m) => opt_view(m.collection_path),
        None => None,
    };
    let from_state = if app.collection_states@.len() > 0 {
        Some(app.collection_states@[0].path@)
    } else {
        None
    };
    or_else(or_else(or_else(from_family, from_node), first_some(app.event_handlers@, handler_collection())), from_state)
}

/// The field of a row that holds its text: the field an appended record
/// fills from a text source, else the first text field of the first list
/// state's seeds, else `value`.
pub open spec fn list_text_field(app: AppIr) -> Seq<char> {
    let seeded = if app.collection_states@.len() > 0 {
        first_some(app.collection_states@[0].initial_entries@, seed_text_key())
    } else {
        None
    };
    match or_else(first_some(app.event_handlers@, handler_pick_of(2)), seeded) {
        Some(f) => f,
        None => "value"@,
    }
}

/// The source base of the list's entry: the base of the text source that
/// appended records are filled from, else the first text input of the
/// tree that belongs to no dynamic family.
pub open spec fn entry_base(app: AppIr, tree: Option<IrRenderNode>) -> Option<Seq<char>> {
    let from_entry = match first_some(app.event_handlers@, handler_pick_of(1)) {
        Some(p) => base_of(p),
        None => None,
    };
    let from_tree = match tree {
        Some(t) => first_path(t, 1, IrRenderKind::TextInput),
        None => None,
    };
    or_else(from_entry, from_tree)
}

/// How the app's list of records is fed, if it has one that an effect
/// changes or a list state holds.
pub open spec fn list_wiring(entries: Seq<SourceEntry>, app: AppIr, tree: Option<IrRenderNode>) -> Option<ListWiringModel> {
    match list_root(app, tree) {
        None => None,
        Some(root) => if first_some(app.event_handlers@, handler_collection()) is None && !(exists|i: int|
            0 <= i < app.collection_states@.len() && app.collection_states@[i].path@ == root) {
            None
        } else {
            let family = match mapped_family(tree) {
                Some(f) => f,
                None => root + "[*]"@,
            };
            let dyn_base = mapped_text_base(tree);
            let input = entry_base(app, tree);
            Some(ListWiringModel {
                family,
                root,
                text_field: list_text_field(app),
                bool_field: first_some(app.event_handlers@, handler_pick_of(3)),
                edit_focus_field: match dyn_base {
                    Some(b) => if has_prefix(b, family + "."@) {
                        Some(b.skip(family.len() as int + 1))
                    } else {
                        base_of(b)
                    },
                    None => None,
                },
                entry_text: or_else(first_some(app.event_handlers@, handler_pick_of(1)), opt_join(input, ".text"@)),
                input_focus: opt_existing(entries, input, ".event.focus"@),
                input_blur: opt_existing(entries, input, ".event.blur"@),
                input_change: opt_existing(entries, input, ".event.change"@),
                dynamic_text_value: opt_join(dyn_base, ".text"@),
                dynamic_text_key: opt_existing(entries, dyn_base, ".event.key_down.key"@),
                dynamic_text_blur: opt_existing(entries, dyn_base, ".event.blur"@),
                dynamic_text_change: opt_existing(entries, dyn_base, ".event.change"@),
            })
        },
    }
}

/// Where a source of a list wiring is there, it is `base` followed by
/// `suffix` and the inventory has it.
pub open spec fn source_from(p: Option<Seq<char>>, base: Option<Seq<char>>, suffix: Seq<char>, entries: Seq<SourceEntry>) -> bool {
    match p {
        Some(x) => {
            &&& base matches Some(b) && x == b + suffix
            &&& has_suffix(x, suffix)
            &&& inventory_has(entries, x)
        },
        None => true,
    }
}

proof fn lemma_suffix_of_join(b: Seq<char>, suffix: Seq<char>)
    ensures
        has_suffix(b + suffix, suffix),
{
    assert((b + suffix).subrange((b + suffix).len() - suffix.len(), (b + suffix).len() as int) =~= suffix);
}

/// The list wiring routes each event of the entry input to that event's
/// own source: focus to `.event.focus`, blur to `.event.blur`, change to
/// `.event.change` below the entry input's base; and each event of the
/// rows' text input to its own source below that input's base.
pub proof fn law_list_wiring_sources(entries: Seq<SourceEntry>, app: AppIr, tree: Option<IrRenderNode>)
    ensures
        list_wiring(entries, app, tree) matches Some(w) ==> {
            &&& source_from(w.input_focus, entry_base(app, tree), ".event.focus"@, entries)
            &&& source_from(w.input_blur, entry_base(app, tree), ".event.blur"@, entries)
            &&& source_from(w.input_change, entry_base(app, tree), ".event.change"@, entries)
            &&& source_from(w.dynamic_text_key, mapped_text_base(tree), ".event.key_down.key"@, entries)
            &&& source_from(w.dynamic_text_blur, mapped_text_base(tree), ".event.blur"@, entries)
            &&& source_from(w.dynamic_text_change, mapped_text_base(tree), ".event.change"@, entries)
        },
{
    match entry_base(app, tree) {
        Some(b) => {
            lemma_suffix_of_join(b, ".event.focus"@);
            lemma_suffix_of_join(b, ".event.blur"@);
            lemma_suffix_of_join(b, ".event.change"@);
        },
        None => {},
    }
    match mapped_text_base(tree) {
        Some(b) => {
            lemma_suffix_of_join(b, ".event.key_down.key"@);
            lemma_suffix_of_join(b, ".event.blur"@);
            lemma_suffix_of_join(b, ".event.change"@);
        },
        None => {},
    }
}

/// The optional tree a reference points at.
pub open spec fn opt_tree(t: Option<&IrRenderNode>) -> Option<IrRenderNode> {
    match t {
        Some(n) => Some(*n),
        None => None,
    }
}

fn some_or(a: Option<String>, b: Option<String>) -> (r: Option<String>)
    ensures
        opt_view(r) == or_else(opt_view(a), opt_view(b)),
{
    match a {
        Some(x) => Some(x),
        None => b,
    }
}

fn list_root_exec(app_ir: &AppIr, mapped: Option<&IrRenderNode>, family: &Option<String>, Ghost(tree): Ghost<Option<IrRenderNode>>) -> (r: Option<String>)
    requires
        opt_tree(mapped) == mapped_node(tree),
        opt_view(*family) == mapped_family(tree),
    ensures
        opt_view(r) == list_root(*app_ir, tree),
{
    let from_family = match family {
        Some(f) => Some(dynamic_family_root(f.as_str())),
        None => None,
    };
    let from_node = match mapped {
        Some(m) => m.collection_path.clone(),
        None => None,
    };
    let from_state = if app_ir.collection_states.len() > 0 {
        Some(app_ir.collection_states[0].path.clone())
    } else {
        None
    };
    let effect = first_collection_effect_path(app_ir);
    assert(opt_view(effect) == first_some(app_ir.event_handlers@, handler_collection()));
    some_or(some_or(some_or(from_family, from_node), effect), from_state)
}

fn has_state_at(app_ir: &AppIr, root: &String) -> (r: bool)
    ensures
        r == exists|i: int| 0 <= i < app_ir.collection_states@.len() && app_ir.collection_states@[i].path@ == root@,
{
    let mut i: usize = 0;
    while i < app_ir.collection_states.len()
        invariant
            i <= app_ir.collection_states@.len(),
            forall|j: int| 0 <= j < i ==> app_ir.collection_states@[j].path@ != root@,
        decreases app_ir.collection_states.len() - i,
    {
        if crate::text::string_eq(&app_ir.collection_states[i].path, root) {
            return true;
        }
        i = i + 1;
    }
    false
}

fn text_field_exec(app_ir: &AppIr) -> (r: String)
    ensures
        r@ == list_text_field(*app_ir),
{
    let seeded = if app_ir.collection_states.len() > 0 {
        first_text_field(app_ir.collection_states[0].initial_entries.as_slice())
    } else {
        None
    };
    match some_or(app_pick(app_ir, 2), seeded) {
        Some(f) => f,
        None => "value".to_string(),
    }
}

fn edit_focus_exec(dyn_base: &Option<String>, family: &String) -> (r: Option<String>)
    ensures
        opt_view(r) == match opt_view(*dyn_base) {
            Some(b) => if has_prefix(b, family@ + "."@) {
                Some(b.skip(family@.len() as int + 1))
            } else {
                base_of(b)
            },
            None => None,
        },
{
    match dyn_base {
        Some(b) => {
            let mut prefix = chars_of(family.as_str());
            prefix.push('.');
            proof {
                reveal_strlit(".");
                assert(prefix@ =~= family@ + "."@);
            }
            let v = chars_of(b.as_str());
            if crate::text::starts_with(&v, &prefix) {
                Some(string_of_range(&v, prefix.len(), v.len()))
            } else {
                source_base_from_path(b.as_str())
            }
        },
        None => None,
    }
}

impl CollectionSourceWiring {
    pub open spec fn model(&self) -> ListWiringModel {
        ListWiringModel {
            family: self.family@,
            root: self.root@,
            text_field: self.text_field@,
            bool_field: opt_view(self.bool_field),
            edit_focus_field: opt_view(self.edit_focus_field),
            entry_text: opt_view(self.entry_text),
            input_focus: opt_view(self.input_focus),
            input_blur: opt_view(self.input_blur),
            input_change: opt_view(self.input_change),
            dynamic_text_value: opt_view(self.dynamic_text_value),
            dynamic_text_key: opt_view(self.dynamic_text_key),
            dynamic_text_blur: opt_view(self.dynamic_text_blur),
            dynamic_text_change: opt_view(self.dynamic_text_change),
        }
    }

    /// The list wiring of an app: where its rows and entry come from.
    pub fn from_app_ir(inventory: &SourceInventory, app_ir: &AppIr, render_tree: Option<&IrRenderNode>) -> (r: Option<CollectionSourceWiring>)
        ensures
            match r {
                Some(w) => list_wiring(inventory.entries@, *app_ir, opt_tree(render_tree)) == Some(w.model()),
                None => list_wiring(inventory.entries@, *app_ir, opt_tree(render_tree)) is None,
            },
    {
        let ghost tree = opt_tree(render_tree);
        let has_collection_effect = first_collection_effect_path(app_ir).is_some();
        let mapped: Option<&IrRenderNode> = match render_tree {
            Some(t) => find_render_node_kind(t, IrRenderKind::ListMap),
            None => None,
        };
        assert(opt_tree(mapped) == mapped_node(tree));
        let text_base = match mapped {
            Some(m) => first_source_path_for_kind(m, IrRenderKind::TextInput),
            None => None,
        };
        let mapped_action_base = match mapped {
            Some(m) => first_dynamic_source_path(m),
            None => None,
        };
        let dynamic_family = match some_or(text_base.clone(), mapped_action_base) {
            Some(b) => dynamic_family_from_source_base(b.as_str()),
            None => None,
        };
        assert(opt_view(text_base) == mapped_text_base(tree));
        assert(opt_view(dynamic_family) == mapped_family(tree));
        let root = match list_root_exec(app_ir, mapped, &dynamic_family, Ghost(tree)) {
            Some(r) => r,
            None => return None,
        };
        if !has_collection_effect && !has_state_at(app_ir, &root) {
            return None;
        }
        let entry_text = app_pick(app_ir, 1);
        let text_field = text_field_exec(app_ir);
        let bool_field = app_pick(app_ir, 3);
        let from_entry = match &entry_text {
            Some(p) => source_base_from_path(p.as_str()),
            None => None,
        };
        let from_tree = match render_tree {
            Some(t) => first_static_source_path_for_kind(t, IrRenderKind::TextInput),
            None => None,
        };
        let input_base = some_or(from_entry, from_tree);
        assert(opt_view(input_base) == entry_base(*app_ir, tree));
        let family = match dynamic_family {
            Some(f) => f,
            None => {
                let mut v = chars_of(root.as_str());
                push_str(&mut v, "[*]");
                string_of(&v)
            },
        };
        let edit_focus_field = edit_focus_exec(&text_base, &family);
        let entry = some_or(entry_text, joined(&input_base, ".text"));
        let w = CollectionSourceWiring {
            family,
            root,
            text_field,
            bool_field,
            edit_focus_field,
            entry_text: entry,
            input_focus: existing_opt(inventory, &input_base, ".event.focus"),
            input_blur: existing_opt(inventory, &input_base, ".event.blur"),
            input_change: existing_opt(inventory, &input_base, ".event.change"),
            dynamic_text_value: joined(&text_base, ".text"),
            dynamic_text_key: existing_opt(inventory, &text_base, ".event.key_down.key"),
            dynamic_text_blur: existing_opt(inventory, &text_base, ".event.blur"),
            dynamic_text_change: existing_opt(inventory, &text_base, ".event.change"),
        };
        assert(list_wiring(inventory.entries@, *app_ir, tree) == Some(w.model()));
        Some(w)
    }

    /// The boolean field of a row that its controls toggle.
    pub fn bool_field(&self) -> (r: Option<&str>)
        ensures
            crate::compiler::bindings::opt_view(r) == opt_view(self.bool_field),
    {
        match &self.bool_field {
            Some(f) => Some(f.as_str()),
            None => None,
        }
    }

    /// The field of a row that its editor focuses.
    pub fn edit_focus_field(&self) -> (r: Option<&str>)
        ensures
            crate::compiler::bindings::opt_view(r) == opt_view(self.edit_focus_field),
    {
        match &self.edit_focus_field {
            Some(f) => Some(f.as_str()),
            None => None,
        }
    }
}

/// The state that an executable handler sets first, if it has an effect.
pub open spec fn exec_binding(h: ExecSourceHandler) -> Option<Seq<char>> {
    if h.effects@.len() > 0 {
        match h.effects@[0] {
            ExecEffect::SetState { path, .. } => Some(path@),
        }
    } else {
        None
    }
}

/// The state that an assignment sets.
pub open spec fn assigned_state(e: IrEffect) -> Option<Seq<char>> {
    match e {
        IrEffect::Assign { state_path, .. } => Some(state_path@),
        _ => None,
    }
}

pub open spec fn assigned_state_of() -> spec_fn(IrEffect) -> Option<Seq<char>> {
    |e: IrEffect| assigned_state(e)
}

/// The state an executable handler drives, where its source is a clock
/// tick (`tick`) or is not.
pub open spec fn exec_drives(entries: Seq<SourceEntry>, tick: bool) -> spec_fn(ExecSourceHandler) -> Option<Seq<char>> {
    |h: ExecSourceHandler| if is_tick_source(entries, h.source_path@) == tick { exec_binding(h) } else { None }
}

/// The state an event handler assigns first, where its source is a clock
/// tick (`tick`) or is not.
pub open spec fn app_drives(entries: Seq<SourceEntry>, tick: bool) -> spec_fn(IrEventHandler) -> Option<Seq<char>> {
    |h: IrEventHandler| if is_tick_source(entries, h.source_path@) == tick { first_some(h.effects@, assigned_state_of()) } else { None }
}

/// A state that a kind of event drives.
pub struct StateEventBinding {
    pub state_path: String,
}

/// How a compiled app's sources drive its state: the state that actions
/// drive, the state that the clock drives, and the wiring of its list and
/// of its grid.
pub struct RuntimeWiring {
    pub action_state: Option<StateEventBinding>,
    pub clock_state: Option<StateEventBinding>,
    pub list: Option<CollectionSourceWiring>,
    pub indexed: Option<IndexedSourceWiring>,
}

/// The view of a [`RuntimeWiring`].
pub struct RuntimeWiringModel {
    pub action_state: Option<Seq<char>>,
    pub clock_state: Option<Seq<char>>,
    pub list: Option<ListWiringModel>,
    pub indexed: Option<GridWiringModel>,
}

pub open spec fn binding_view(b: Option<StateEventBinding>) -> Option<Seq<char>> {
    match b {
        Some(x) => Some(x.state_path@),
        None => None,
    }
}

/// The state driven by the first handler, executable ones first, whose
/// source is a clock tick (`tick`) or is not.
pub open spec fn driven_state(entries: Seq<SourceEntry>, app: AppIr, exec: ExecutableIr, tick: bool) -> Option<Seq<char>> {
    or_else(first_some(exec.source_handlers@, exec_drives(entries, tick)), first_some(app.event_handlers@, app_drives(entries, tick)))
}

/// The wiring of a compiled app.
pub open spec fn runtime_wiring(entries: Seq<SourceEntry>, app: AppIr, exec: ExecutableIr) -> RuntimeWiringModel {
    RuntimeWiringModel {
        action_state: driven_state(entries, app, exec, false),
        clock_state: driven_state(entries, app, exec, true),
        list: list_wiring(entries, app, app.render_tree),
        indexed: match app.render_tree {
            Some(t) => grid_wiring(t, entries),
            None => None,
        },
    }
}

fn first_assigned_state(h: &IrEventHandler) -> (r: Option<String>)
    ensures
        opt_view(r) == first_some(h.effects@, assigned_state_of()),
{
    let mut j: usize = 0;
    while j < h.effects.len()
        invariant
            j <= h.effects@.len(),
            first_some(h.effects@.take(j as int), assigned_state_of()) is None,
        decreases h.effects.len() - j,
    {
        proof {
            lemma_first_some_step(h.effects@, assigned_state_of(), j as int);
        }
        match &h.effects[j] {
            IrEffect::Assign { state_path, .. } => {
                proof {
                    lemma_first_some_prefix(h.effects@, assigned_state_of(), j + 1);
                }
                return Some(state_path.clone());
            },
            _ => {},
        }
        j = j + 1;
    }
    proof {
        lemma_first_some_all(h.effects@, assigned_state_of());
    }
    None
}

/// Keeps the first binding: `slot` unless it is empty.
fn keep_first(slot: Option<String>, path: String) -> (r: Option<String>)
    ensures
        opt_view(r) == or_else(opt_view(slot), Some(path@)),
{
    match slot {
        Some(s) => Some(s),
        None => Some(path),
    }
}

fn exec_driven(exec: &ExecutableIr, inventory: &SourceInventory, tick: bool) -> (r: Option<String>)
    ensures
        opt_view(r) == first_some(exec.source_handlers@, exec_drives(inventory.entries@, tick)),
{
    let mut found: Option<String> = None;
    let mut i: usize = 0;
    while i < exec.source_handlers.len()
        invariant
            i <= exec.source_handlers@.len(),
            opt_view(found) == first_some(exec.source_handlers@.take(i as int), exec_drives(inventory.entries@, tick)),
        decreases exec.source_handlers.len() - i,
    {
        proof {
            lemma_first_some_step(exec.source_handlers@, exec_drives(inventory.entries@, tick), i as int);
        }
        let h = &exec.source_handlers[i];
        if h.effects.len() > 0 && source_shape_is_tick(inventory, h.source_path.as_str()) == tick {
            match &h.effects[0] {
                ExecEffect::SetState { path, .. } => {
                    found = keep_first(found, path.clone());
                },
            }
        }
        i = i + 1;
    }
    proof {
        lemma_first_some_all(exec.source_handlers@, exec_drives(inventory.entries@, tick));
    }
    found
}

fn app_driven(app: &AppIr, inventory: &SourceInventory, tick: bool) -> (r: Option<String>)
    ensures
        opt_view(r) == first_some(app.event_handlers@, app_drives(inventory.entries@, tick)),
{
    let mut found: Option<String> = None;
    let mut i: usize = 0;
    while i < app.event_handlers.len()
        invariant
            i <= app.event_handlers@.len(),
            opt_view(found) == first_some(app.event_handlers@.take(i as int), app_drives(inventory.entries@, tick)),
        decreases app.event_handlers.len() - i,
    {
        proof {
            lemma_first_some_step(app.event_handlers@, app_drives(inventory.entries@, tick), i as int);
        }
        let h = &app.event_handlers[i];
        if source_shape_is_tick(inventory, h.source_path.as_str()) == tick {
            match first_assigned_state(h) {
                Some(p) => {
                    found = keep_first(found, p);
                },
                None => {},
            }
        }
        i = i + 1;
    }
    proof {
        lemma_first_some_all(app.event_handlers@, app_drives(inventory.entries@, tick));
    }
    found
}

fn binding_of(path: Option<String>) -> (r: Option<StateEventBinding>)
    ensures
        binding_view(r) == opt_view(path),
{
    match path {
        Some(p) => Some(StateEventBinding { state_path: p }),
        None => None,
    }
}

impl RuntimeWiring {
    pub open spec fn model(&self) -> RuntimeWiringModel {
        RuntimeWiringModel {
            action_state: binding_view(self.action_state),
            clock_state: binding_view(self.clock_state),
            list: match self.list {
                Some(w) => Some(w.model()),
                None => None,
            },
            indexed: match self.indexed {
                Some(w) => Some(w.model()),
                None => None,
            },
        }
    }

    /// The wiring of a compiled app: the state its first non-clock handler
    /// drives, the state its first clock handler drives (executable
    /// handlers first), and its list and grid wiring.
    pub fn from_compiled(app_ir: &AppIr, executable_ir: &ExecutableIr, inventory: &SourceInventory) -> (r: RuntimeWiring)
        ensures
            r.model() == runtime_wiring(inventory.entries@, *app_ir, *executable_ir),
    {
        let action = some_or(exec_driven(executable_ir, inventory, false), app_driven(app_ir, inventory, false));
        let clock = some_or(exec_driven(executable_ir, inventory, true), app_driven(app_ir, inventory, true));
        let tree: Option<&IrRenderNode> = match &app_ir.render_tree {
            Some(t) => Some(t),
            None => None,
        };
        assert(opt_tree(tree) == app_ir.render_tree);
        let list = CollectionSourceWiring::from_app_ir(inventory, app_ir, tree);
        let indexed = match tree {
            Some(t) => IndexedSourceWiring::from_render_tree(t, inventory),
            None => None,
        };
        let r = RuntimeWiring { action_state: binding_of(action), clock_state: binding_of(clock), list, indexed };
        assert(r.model() == runtime_wiring(inventory.entries@, *app_ir, *executable_ir));
        r
    }
}

/// The tag state that an effect sets.
pub open spec fn tag_state_of() -> spec_fn(IrEffect) -> Option<Seq<char>> {
    |e: IrEffect| match e {
        IrEffect::SetTagState { state_path, .. } => Some(state_path@),
        _ => None,
    }
}

/// The first tag state that a handler's effects set.
pub open spec fn handler_tag_state() -> spec_fn(IrEventHandler) -> Option<Seq<char>> {
    |h: IrEventHandler| first_some(h.effects@, tag_state_of())
}

fn handler_tag_state_path(h: &IrEventHandler) -> (r: Option<String>)
    ensures
        opt_view(r) == first_some(h.effects@, tag_state_of()),
{
    let mut j: usize = 0;
    while j < h.effects.len()
        invariant
            j <= h.effects@.len(),
            first_some(h.effects@.take(j as int), tag_state_of()) is None,
        decreases h.effects.len() - j,
    {
        proof {
            lemma_first_some_step(h.effects@, tag_state_of(), j as int);
        }
        match &h.effects[j] {
            IrEffect::SetTagState { state_path, .. } => {
                proof {
                    lemma_first_some_prefix(h.effects@, tag_state_of(), j + 1);
                }
                return Some(state_path.clone());
            },
            _ => {},
        }
        j = j + 1;
    }
    proof {
        lemma_first_some_all(h.effects@, tag_state_of());
    }
    None
}

/// The state that holds the selected filter: the first tag state that
/// the app's handlers set.
pub fn selector_state_path(app_ir: &AppIr) -> (r: Option<String>)
    ensures
        opt_view(r) == first_some(app_ir.event_handlers@, handler_tag_state()),
{
    let mut i: usize = 0;
    while i < app_ir.event_handlers.len()
        invariant
            i <= app_ir.event_handlers@.len(),
            first_some(app_ir.event_handlers@.take(i as int), handler_tag_state()) is None,
        decreases app_ir.event_handlers.len() - i,
    {
        proof {
            lemma_first_some_step(app_ir.event_handlers@, handler_tag_state(), i as int);
        }
        match handler_tag_state_path(&app_ir.event_handlers[i]) {
            Some(p) => {
                proof {
                    assert(handler_tag_state()(app_ir.event_handlers@[i as int]) == first_some(app_ir.event_handlers@[i as int].effects@, tag_state_of()));
                    lemma_first_some_prefix(app_ir.event_handlers@, handler_tag_state(), i + 1);
                }
                return Some(p);
            },
            None => {},
        }
        i = i + 1;
    }
    proof {
        lemma_first_some_all(app_ir.event_handlers@, handler_tag_state());
    }
    None
}

/// The initial value of an executable state slot, which must be a number
/// literal; the error says so otherwise.
pub fn selfless_eval_exec_number(expr: &ExecExpr) -> (r: Result<i64, String>)
    ensures
        match *expr {
            ExecExpr::Number { value } => r == Ok::<i64, String>(value),
            _ => r matches Err(m) && m@ == "executable state slot initial value must be a number"@,
        },
{
    match expr {
        ExecExpr::Number { value } => Ok(*value),
        _ => Err("executable state slot initial value must be a number".to_owned()),
    }
}

} // verus!
