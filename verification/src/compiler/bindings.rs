//! Which `Element/*` call produces each `SOURCE` leaf: the source bases
//! that element arguments name, the collections that `List/map` aliases
//! stand for, and the one host contract that must accept each leaf.
use vstd::prelude::*;
use crate::host_schema::{HostContract, leaf_shape, leaves_model};
use crate::shape::{Shape, ShapeModel};
use crate::syntax::{MapBinding, ModuleCall, ParsedModule, ParsedRecordEntry};
use crate::syntax::expr::is_lit;
use crate::text::{chars_of, chars_of_string, has_prefix, is_ws, string_of, ws_char};
use super::paths::{family_path, split_first, split_first_str, strip_prefix_str};

verus! {

/// An `element:` argument of an `Element/*` call: the call and the source
/// base it names.
#[derive(Debug)]
pub struct HostBinding {
    pub function: String,
    pub source_base: String,
}

/// The producer found for a `SOURCE` path: the element function, the path
/// below its source base, and the shape its contract gives that path.
#[derive(Debug)]
pub struct SourceBinding {
    pub function: String,
    pub relative_path: String,
    pub shape: Shape,
}

/// A separator between the parts of a `List/map` collection expression.
pub open spec fn is_part_sep(c: char) -> bool {
    is_ws(c) || c == '.' || c == '|'
}

pub open spec fn lead_seps(s: Seq<char>) -> nat
    decreases s.len(),
{
    if s.len() > 0 && is_part_sep(s[0]) {
        1 + lead_seps(s.drop_first())
    } else {
        0
    }
}

pub open spec fn part_len(s: Seq<char>) -> nat
    decreases s.len(),
{
    if s.len() > 0 && !is_part_sep(s[0]) {
        1 + part_len(s.drop_first())
    } else {
        0
    }
}

/// The first non-empty part of a collection expression: the collection a
/// `List/map` walks.
pub open spec fn collection_root(s: Seq<char>) -> Option<Seq<char>> {
    let k = lead_seps(s);
    if k >= s.len() {
        None
    } else {
        let t = s.subrange(k as int, s.len() as int);
        Some(t.subrange(0, part_len(t) as int))
    }
}

proof fn lemma_lead_seps_step(s: Seq<char>, lo: int)
    requires
        0 <= lo < s.len(),
        is_part_sep(s[lo]),
    ensures
        lead_seps(s.subrange(lo, s.len() as int)) == 1 + lead_seps(s.subrange(lo + 1, s.len() as int)),
{
    assert(s.subrange(lo, s.len() as int).drop_first() =~= s.subrange(lo + 1, s.len() as int));
}

proof fn lemma_part_len_step(s: Seq<char>, lo: int)
    requires
        0 <= lo < s.len(),
        !is_part_sep(s[lo]),
    ensures
        part_len(s.subrange(lo, s.len() as int)) == 1 + part_len(s.subrange(lo + 1, s.len() as int)),
{
    assert(s.subrange(lo, s.len() as int).drop_first() =~= s.subrange(lo + 1, s.len() as int));
}

proof fn lemma_lead_seps_bound(s: Seq<char>)
    ensures
        lead_seps(s) <= s.len(),
    decreases s.len(),
{
    if s.len() > 0 && is_part_sep(s[0]) {
        lemma_lead_seps_bound(s.drop_first());
    }
}

proof fn lemma_part_len_bound(s: Seq<char>)
    ensures
        part_len(s) <= s.len(),
    decreases s.len(),
{
    if s.len() > 0 && !is_part_sep(s[0]) {
        lemma_part_len_bound(s.drop_first());
    }
}

fn part_sep(c: char) -> (r: bool)
    ensures
        r == is_part_sep(c),
{
    ws_char(c) || c == '.' || c == '|'
}

/// The collection a `List/map` walks, as `collection_root` describes it.
pub fn collection_root_of(collection: &str) -> (r: Option<String>)
    ensures
        match collection_root(collection@) {
            Some(p) => r matches Some(x) && x@ == p,
            None => r is None,
        },
{
    let v = chars_of(collection);
    let ghost s = v@;
    let mut i: usize = 0;
    assert(s.subrange(0, s.len() as int) =~= s);
    while i < v.len() && part_sep(v[i])
        invariant
            i <= v@.len(),
            s == v@,
            lead_seps(s) == i + lead_seps(s.subrange(i as int, s.len() as int)),
        decreases v.len() - i,
    {
        proof {
            lemma_lead_seps_step(s, i as int);
        }
        i = i + 1;
    }
    proof {
        if i < v.len() {
            assert(!is_part_sep(s.subrange(i as int, s.len() as int)[0]));
        }
        assert(lead_seps(s.subrange(i as int, s.len() as int)) == 0);
    }
    if i == v.len() {
        return None;
    }
    let ghost t = s.subrange(i as int, s.len() as int);
    let mut j: usize = i;
    while j < v.len() && !part_sep(v[j])
        invariant
            i <= j <= v@.len(),
            s == v@,
            t == s.subrange(i as int, s.len() as int),
            part_len(t) == (j - i) + part_len(s.subrange(j as int, s.len() as int)),
        decreases v.len() - j,
    {
        proof {
            lemma_part_len_step(s, j as int);
        }
        j = j + 1;
    }
    proof {
        if j < v.len() {
            assert(is_part_sep(s.subrange(j as int, s.len() as int)[0]));
        }
        assert(part_len(s.subrange(j as int, s.len() as int)) == 0);
        assert(t.subrange(0, part_len(t) as int) =~= s.subrange(i as int, j as int));
    }
    Some(crate::text::string_of_range(&v, i, j))
}

// ---------------------------------------------------------------------------
// Map aliases
// ---------------------------------------------------------------------------

/// The alias table as a map from alias to collection root; later entries
/// replace earlier ones with the same alias.
pub open spec fn alias_map(t: Seq<(String, String)>) -> Map<Seq<char>, Seq<char>>
    decreases t.len(),
{
    if t.len() == 0 {
        Map::empty()
    } else {
        alias_map(t.drop_last()).insert(t.last().0@, t.last().1@)
    }
}

/// The collection root that a `List/map` over `collection` ranges over,
/// given the aliases so far and the inferred dynamic roots: an alias of an
/// alias keeps its root; a named dynamic root is itself; a lone dynamic
/// root is the default; otherwise `records`.
pub open spec fn alias_root(
    roots: Map<Seq<char>, Seq<char>>,
    collection: Option<Seq<char>>,
    seq_root: Option<Seq<char>>,
    dense_root: Option<Seq<char>>,
) -> Seq<char> {
    if collection is Some && roots.contains_key(collection->0) {
        roots[collection->0]
    } else if collection is Some && seq_root is Some && collection->0 == seq_root->0 {
        seq_root->0
    } else if collection is Some && dense_root is Some && collection->0 == dense_root->0 {
        dense_root->0
    } else if seq_root is Some && dense_root is None {
        seq_root->0
    } else if dense_root is Some && seq_root is None {
        dense_root->0
    } else {
        "records"@
    }
}

/// The alias table after the first `n` map bindings.
pub open spec fn aliases_after(
    bindings: Seq<MapBinding>,
    n: int,
    seq_root: Option<Seq<char>>,
    dense_root: Option<Seq<char>>,
) -> Map<Seq<char>, Seq<char>>
    decreases n,
{
    if n <= 0 {
        Map::empty()
    } else {
        let before = aliases_after(bindings, n - 1, seq_root, dense_root);
        let b = bindings[n - 1];
        before.insert(b.variable@, alias_root(before, collection_root(b.collection@), seq_root, dense_root))
    }
}

/// The characters of an optional string slice.
pub open spec fn opt_view(o: Option<&str>) -> Option<Seq<char>> {
    match o {
        Some(x) => Some(x@),
        None => None,
    }
}

/// The root that `alias` stands for in the table.
pub fn alias_get(t: &Vec<(String, String)>, alias: &[char]) -> (r: Option<String>)
    ensures
        alias_map(t@).contains_key(alias@) ==> (r matches Some(x) && x@ == alias_map(t@)[alias@]),
        !alias_map(t@).contains_key(alias@) ==> r is None,
{
    let mut i: usize = t.len();
    assert(t@.subrange(0, t@.len() as int) =~= t@);
    while i > 0
        invariant
            i <= t@.len(),
            forall|k: int| i <= k < t@.len() ==> (#[trigger] t@[k]).0@ != alias@,
            alias_map(t@).contains_key(alias@) == alias_map(t@.subrange(0, i as int)).contains_key(alias@),
            alias_map(t@).contains_key(alias@) ==> alias_map(t@)[alias@] == alias_map(t@.subrange(0, i as int))[alias@],
        decreases i,
    {
        let ghost pre = t@.subrange(0, i as int);
        assert(pre.drop_last() =~= t@.subrange(0, i - 1));
        let k = chars_of_string(&t[i - 1].0);
        if crate::text::seq_eq(&k, alias) {
            let v = chars_of_string(&t[i - 1].1);
            return Some(string_of(&v));
        }
        i = i - 1;
    }
    None
}

/// Sets the root of `alias`, replacing an earlier one.
fn alias_insert(t: &mut Vec<(String, String)>, alias: String, root: String)
    ensures
        alias_map(final(t)@) == alias_map(old(t)@).insert(alias@, root@),
{
    t.push((alias, root));
    assert(final(t)@.drop_last() =~= old(t)@);
}

/// The alias table of a module's `List/map` bindings.
pub fn map_alias_roots(parsed: &ParsedModule, seq_root: Option<&str>, dense_root: Option<&str>) -> (r: Vec<(String, String)>)
    ensures
        alias_map(r@) == aliases_after(
            parsed.map_bindings@,
            parsed.map_bindings@.len() as int,
            match seq_root {
                Some(x) => Some(x@),
                None => None,
            },
            match dense_root {
                Some(x) => Some(x@),
                None => None,
            },
        ),
{
    let ghost sr = opt_view(seq_root);
    let ghost dr = opt_view(dense_root);
    let mut roots: Vec<(String, String)> = Vec::new();
    let mut i: usize = 0;
    while i < parsed.map_bindings.len()
        invariant
            i <= parsed.map_bindings@.len(),
            sr == match seq_root {
                Some(x) => Some(x@),
                None => None,
            },
            dr == match dense_root {
                Some(x) => Some(x@),
                None => None,
            },
            alias_map(roots@) == aliases_after(parsed.map_bindings@, i as int, sr, dr),
        decreases parsed.map_bindings.len() - i,
    {
        let b = &parsed.map_bindings[i];
        let collection = collection_root_of(b.collection.as_str());
        let ghost cv: Option<Seq<char>> = match &collection {
            Some(x) => Some(x@),
            None => None,
        };
        assert(cv == collection_root(b.collection@));
        let mut root: Option<String> = None;
        if let Some(c) = &collection {
            let cc = chars_of_string(c);
            root = alias_get(&roots, &cc);
        }
        if root.is_none() {
            if let (Some(c), Some(s)) = (&collection, seq_root) {
                if crate::text::str_eq(c, s) {
                    root = Some(s.to_owned());
                }
            }
        }
        if root.is_none() {
            if let (Some(c), Some(d)) = (&collection, dense_root) {
                if crate::text::str_eq(c, d) {
                    root = Some(d.to_owned());
                }
            }
        }
        if root.is_none() {
            if let (Some(s), None) = (seq_root, dense_root) {
                root = Some(s.to_owned());
            }
        }
        if root.is_none() {
            if let (None, Some(d)) = (seq_root, dense_root) {
                root = Some(d.to_owned());
            }
        }
        let chosen = match root {
            Some(x) => x,
            None => "records".to_owned(),
        };
        assert(chosen@ == alias_root(alias_map(roots@), cv, sr, dr));
        let variable = string_of(&chars_of_string(&b.variable));
        alias_insert(&mut roots, variable, chosen);
        i = i + 1;
    }
    roots
}

// ---------------------------------------------------------------------------
// Host bindings
// ---------------------------------------------------------------------------

/// The source base that an `element:` argument names: a `sources.` path of
/// a map alias belongs to the family of the alias's collection; one under a
/// record other than `store` to that record's family.
pub open spec fn binding_base(expr: Seq<char>, aliases: Map<Seq<char>, Seq<char>>) -> Seq<char> {
    match split_first(expr, ".sources."@) {
        Some((a, t)) => if aliases.contains_key(a) {
            family_path(aliases[a], t)
        } else if a == "store"@ {
            expr
        } else {
            family_path(a, t)
        },
        None => expr,
    }
}

/// The source base named by an `element:` argument.
pub fn normalize_binding_expr(expr: &str, aliases: &Vec<(String, String)>) -> (r: String)
    ensures
        r@ == binding_base(expr@, alias_map(aliases@)),
{
    let v = chars_of(expr);
    match split_first_str(&v, ".sources.") {
        Some((a, t)) => {
            match alias_get(aliases, &a) {
                Some(root) => {
                    let rv = chars_of_string(&root);
                    family_string(&rv, &t)
                },
                None => {
                    if is_lit(&a, "store") {
                        string_of(&v)
                    } else {
                        family_string(&a, &t)
                    }
                },
            }
        },
        None => string_of(&v),
    }
}

fn family_string(root: &[char], tail: &[char]) -> (r: String)
    ensures
        r@ == family_path(root@, tail@),
{
    let mut out: Vec<char> = Vec::new();
    crate::text::push_all(&mut out, root);
    crate::text::push_str(&mut out, "[*].sources.");
    crate::text::push_all(&mut out, tail);
    string_of(&out)
}

/// The host bindings of a module: every `element:` argument of every
/// `Element/*` call, in order.
pub open spec fn host_bindings_of(calls: Seq<ModuleCall>, aliases: Map<Seq<char>, Seq<char>>) -> Seq<(Seq<char>, Seq<char>)>
    decreases calls.len(),
{
    if calls.len() == 0 {
        Seq::empty()
    } else {
        let c = calls.last();
        let here = if has_prefix(c.path@, "Element/"@) {
            element_args(c.args@, c.path@, aliases)
        } else {
            Seq::empty()
        };
        host_bindings_of(calls.drop_last(), aliases) + here
    }
}

pub open spec fn element_args(args: Seq<crate::syntax::CallArg>, function: Seq<char>, aliases: Map<Seq<char>, Seq<char>>) -> Seq<(Seq<char>, Seq<char>)>
    decreases args.len(),
{
    if args.len() == 0 {
        Seq::empty()
    } else {
        let a = args.last();
        let here: Seq<(Seq<char>, Seq<char>)> = if a.name@ == "element"@ {
            seq![(function, binding_base(a.value@, aliases))]
        } else {
            Seq::empty()
        };
        element_args(args.drop_last(), function, aliases) + here
    }
}

pub open spec fn bindings_model(b: Seq<HostBinding>) -> Seq<(Seq<char>, Seq<char>)> {
    Seq::new(b.len(), |i: int| (b[i].function@, b[i].source_base@))
}

/// The host bindings of a module.
pub fn collect_host_bindings(parsed: &ParsedModule, aliases: &Vec<(String, String)>) -> (r: Vec<HostBinding>)
    ensures
        bindings_model(r@) == host_bindings_of(parsed.module_calls@, alias_map(aliases@)),
{
    let ghost am = alias_map(aliases@);
    let mut out: Vec<HostBinding> = Vec::new();
    let mut i: usize = 0;
    while i < parsed.module_calls.len()
        invariant
            i <= parsed.module_calls@.len(),
            am == alias_map(aliases@),
            bindings_model(out@) == host_bindings_of(parsed.module_calls@.subrange(0, i as int), am),
        decreases parsed.module_calls.len() - i,
    {
        let call = &parsed.module_calls[i];
        let ghost before = out@;
        assert(parsed.module_calls@.subrange(0, i + 1).drop_last() =~= parsed.module_calls@.subrange(0, i as int));
        let path = chars_of_string(&call.path);
        if super::paths::starts_with_str(&path, "Element/") {
            let mut k: usize = 0;
            while k < call.args.len()
                invariant
                    k <= call.args@.len(),
                    am == alias_map(aliases@),
                    path@ == call.path@,
                    has_prefix(call.path@, "Element/"@),
                    bindings_model(out@) == bindings_model(before) + element_args(call.args@.subrange(0, k as int), call.path@, am),
                decreases call.args.len() - k,
            {
                let arg = &call.args[k];
                assert(call.args@.subrange(0, k + 1).drop_last() =~= call.args@.subrange(0, k as int));
                let ghost mid = out@;
                if crate::text::str_eq(&arg.name, "element") {
                    let base = normalize_binding_expr(arg.value.as_str(), aliases);
                    out.push(HostBinding { function: string_of(&path), source_base: base });
                    assert(bindings_model(out@) =~= bindings_model(mid).push((call.path@, binding_base(arg.value@, am))));
                }
                assert(bindings_model(out@) =~= bindings_model(before) + element_args(call.args@.subrange(0, k + 1), call.path@, am));
                k = k + 1;
            }
            assert(call.args@.subrange(0, call.args@.len() as int) =~= call.args@);
        }
        assert(bindings_model(out@) =~= host_bindings_of(parsed.module_calls@.subrange(0, i + 1), am));
        i = i + 1;
    }
    assert(parsed.module_calls@.subrange(0, parsed.module_calls@.len() as int) =~= parsed.module_calls@);
    out
}

// ---------------------------------------------------------------------------
// The producer of a source
// ---------------------------------------------------------------------------

/// The position of the first contract of `function`.
pub open spec fn contract_index(contracts: Seq<HostContract>, function: Seq<char>) -> Option<int> {
    if exists|k: int| 0 <= k < contracts.len() && contracts[k].function@ == function {
        Some(
            choose|k: int|
                0 <= k < contracts.len() && contracts[k].function@ == function && forall|j: int|
                    0 <= j < k ==> contracts[j].function@ != function,
        )
    } else {
        None
    }
}

/// What host binding `b` (function, source base) makes of `source`: the
/// path below the base, and the shape that the function's contract gives
/// that path.
pub open spec fn binding_match(
    source: Seq<char>,
    b: (Seq<char>, Seq<char>),
    contracts: Seq<HostContract>,
) -> Option<(Seq<char>, ShapeModel)> {
    let base = b.1;
    if has_prefix(source, base) && source.len() > base.len() && source[base.len() as int] == '.' {
        let rel = source.subrange(base.len() as int + 1, source.len() as int);
        match contract_index(contracts, b.0) {
            Some(k) => match leaf_shape(leaves_model(contracts[k].optional_leaves@), rel) {
                Some(m) => Some((rel, m)),
                None => None,
            },
            None => None,
        }
    } else {
        None
    }
}

/// Every host binding that can produce `source`, in order, as (function,
/// relative path, shape).
pub open spec fn source_matches(
    source: Seq<char>,
    bindings: Seq<(Seq<char>, Seq<char>)>,
    contracts: Seq<HostContract>,
) -> Seq<(Seq<char>, Seq<char>, ShapeModel)>
    decreases bindings.len(),
{
    if bindings.len() == 0 {
        Seq::empty()
    } else {
        let b = bindings.last();
        let here: Seq<(Seq<char>, Seq<char>, ShapeModel)> = match binding_match(source, b, contracts) {
            Some((rel, m)) => seq![(b.0, rel, m)],
            None => Seq::empty(),
        };
        source_matches(source, bindings.drop_last(), contracts) + here
    }
}

#[derive(Debug)]
pub enum BindingError {
    NoBinding,
    Ambiguous,
}

/// The first contract of `function`.
fn find_contract<'a>(contracts: &'a Vec<HostContract>, function: &[char]) -> (r: Option<&'a HostContract>)
    ensures
        match contract_index(contracts@, function@) {
            Some(k) => r == Some(&contracts@[k]),
            None => r is None,
        },
{
    let mut k: usize = 0;
    while k < contracts.len()
        invariant
            k <= contracts@.len(),
            forall|j: int| 0 <= j < k ==> contracts@[j].function@ != function@,
        decreases contracts.len() - k,
    {
        if is_lit(function, contracts[k].function) {
            proof {
                let w = choose|w: int|
                    0 <= w < contracts@.len() && contracts@[w].function@ == function@ && forall|j: int|
                        0 <= j < w ==> contracts@[j].function@ != function@;
                assert(0 <= k && contracts@[k as int].function@ == function@ && forall|j: int|
                    0 <= j < k ==> contracts@[j].function@ != function@);
                assert(w == k) by {
                    if w < k {
                        assert(contracts@[w].function@ != function@);
                    }
                    if w > k {
                        assert(contracts@[k as int].function@ != function@);
                    }
                }
            }
            return Some(&contracts[k]);
        }
        k = k + 1;
    }
    None
}

/// The one host binding that produces `source`: an error when none or more
/// than one can.
pub fn binding_for_source(source: &str, bindings: &Vec<HostBinding>, contracts: &Vec<HostContract>) -> (r: Result<SourceBinding, BindingError>)
    ensures
        match r {
            Ok(sb) => source_matches(source@, bindings_model(bindings@), contracts@).len() == 1
                && (sb.function@, sb.relative_path@, sb.shape@) == source_matches(source@, bindings_model(bindings@), contracts@)[0],
            Err(BindingError::NoBinding) => source_matches(source@, bindings_model(bindings@), contracts@).len() == 0,
            Err(BindingError::Ambiguous) => source_matches(source@, bindings_model(bindings@), contracts@).len() >= 2,
        },
{
    let v = chars_of(source);
    let ghost bm = bindings_model(bindings@);
    let mut found: Option<SourceBinding> = None;
    let mut count: usize = 0;
    let mut i: usize = 0;
    while i < bindings.len()
        invariant
            i <= bindings@.len(),
            v@ == source@,
            bm == bindings_model(bindings@),
            count == source_matches(source@, bm.subrange(0, i as int), contracts@).len(),
            count <= i,
            count >= 1 ==> (found matches Some(sb) && (sb.function@, sb.relative_path@, sb.shape@)
                == source_matches(source@, bm.subrange(0, i as int), contracts@)[0]),
        decreases bindings.len() - i,
    {
        let b = &bindings[i];
        let ghost pre = bm.subrange(0, i as int);
        assert(bm.subrange(0, i + 1).drop_last() =~= pre);
        assert(bm.subrange(0, i + 1).last() == (b.function@, b.source_base@));
        let base = chars_of_string(&b.source_base);
        let mut hit: Option<(Vec<char>, Shape)> = None;
        if super::paths::starts_with_str(&v, b.source_base.as_str()) && v.len() > base.len() && v[base.len()] == '.' {
            let rel = crate::text::slice_range(&v, base.len() + 1, v.len());
            let function = chars_of_string(&b.function);
            match find_contract(contracts, &function) {
                Some(contract) => {
                    let rel_text = string_of(&rel);
                    match contract.accepts(rel_text.as_str()) {
                        Some(shape) => {
                            hit = Some((rel, shape.duplicate()));
                        },
                        None => {},
                    }
                },
                None => {},
            }
        }
        assert(hit matches Some((rel, shape)) <==> binding_match(source@, (b.function@, b.source_base@), contracts@) is Some);
        match hit {
            Some((rel, shape)) => {
                assert(binding_match(source@, (b.function@, b.source_base@), contracts@) == Some((rel@, shape@)));
                if count == 0 {
                    found = Some(SourceBinding { function: string_of(&chars_of_string(&b.function)), relative_path: string_of(&rel), shape });
                }
                count = count + 1;
                assert(source_matches(source@, bm.subrange(0, i + 1), contracts@) =~= source_matches(source@, pre, contracts@).push((b.function@, rel@, shape@)));
            },
            None => {
                assert(source_matches(source@, bm.subrange(0, i + 1), contracts@) =~= source_matches(source@, pre, contracts@));
            },
        }
        i = i + 1;
    }
    assert(bm.subrange(0, bindings@.len() as int) =~= bm);
    if count == 0 {
        Err(BindingError::NoBinding)
    } else if count == 1 {
        match found {
            Some(sb) => Ok(sb),
            None => Err(BindingError::NoBinding),
        }
    } else {
        Err(BindingError::Ambiguous)
    }
}

} // verus!
