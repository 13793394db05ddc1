//! The generic render tree of a module's `document`: one node per element
//! call, list and pipeline, each bound to the source it shows.
use vstd::prelude::*;
use crate::hir::{HirCallArg, HirExpr, HirExprKind, HirListOp, HirLiteral, HirModule};
use crate::source::{SourceEntry, SourceInventory};
use crate::text::{chars_of, chars_of_string, push_decimal, push_str, str_eq, string_of};
use super::{IrRenderKind, IrRenderNode, IrRenderText};
use super::hirq::{first_path_in_expr, hir_record, named_arg, named_arg_index, path_expr};
use super::reads::backed;
use super::resolve::resolve_source_base;

verus! {

/// Every node of the tree that is bound to a source is bound to one that
/// the inventory backs: some `SOURCE` leaf stands at or below it.
pub open spec fn tree_backed(n: IrRenderNode, entries: Seq<SourceEntry>) -> bool
    decreases n,
{
    &&& (n.source_path matches Some(p) ==> backed(entries, p@))
    &&& forall|i: int| 0 <= i < n.children@.len() ==> tree_backed(#[trigger] n.children@[i], entries)
}

pub open spec fn nodes_backed(s: Seq<IrRenderNode>, entries: Seq<SourceEntry>) -> bool {
    forall|i: int| 0 <= i < s.len() ==> tree_backed(#[trigger] s[i], entries)
}

/// Hands out node ids: a prefix, an underscore and a running number.
pub struct RenderIdAllocator {
    pub next: u64,
}

impl RenderIdAllocator {
    pub fn new() -> (r: RenderIdAllocator)
        ensures
            r.next == 0,
    {
        RenderIdAllocator { next: 0 }
    }

    /// The next id with `prefix`.
    pub fn next_id(&mut self, prefix: &[char]) -> (r: String)
        ensures
            r@ == prefix@ + "_"@ + crate::text::dec_chars(old(self).next as nat),
            final(self).next == old(self).next.wrapping_add(1),
    {
        let id = self.next;
        self.next = self.next.wrapping_add(1);
        let mut out: Vec<char> = Vec::new();
        crate::text::push_all(&mut out, prefix);
        push_str(&mut out, "_");
        push_decimal(&mut out, id);
        string_of(&out)
    }
}

/// The kind of node an element call makes.
pub open spec fn element_kind(path: Seq<char>) -> IrRenderKind {
    if path == "Element/panel"@ {
        IrRenderKind::Panel
    } else if path == "Element/text"@ {
        IrRenderKind::Text
    } else if path == "Element/button"@ {
        IrRenderKind::Button
    } else if path == "Element/text_input"@ {
        IrRenderKind::TextInput
    } else if path == "Element/checkbox"@ {
        IrRenderKind::Checkbox
    } else if path == "Element/label"@ {
        IrRenderKind::Label
    } else if path == "Element/grid"@ {
        IrRenderKind::Grid
    } else {
        IrRenderKind::Unknown
    }
}

fn element_kind_of(path: &String) -> (r: IrRenderKind)
    ensures
        r == element_kind(path@),
{
    if str_eq(path, "Element/panel") {
        IrRenderKind::Panel
    } else if str_eq(path, "Element/text") {
        IrRenderKind::Text
    } else if str_eq(path, "Element/button") {
        IrRenderKind::Button
    } else if str_eq(path, "Element/text_input") {
        IrRenderKind::TextInput
    } else if str_eq(path, "Element/checkbox") {
        IrRenderKind::Checkbox
    } else if str_eq(path, "Element/label") {
        IrRenderKind::Label
    } else if str_eq(path, "Element/grid") {
        IrRenderKind::Grid
    } else {
        IrRenderKind::Unknown
    }
}

/// The text a node shows: a text literal as itself, a path (or the head
/// path of a pipeline) as a binding.
pub fn render_text_from_expr(e: &HirExpr) -> (r: Option<IrRenderText>)
    ensures
        match e.kind {
            HirExprKind::Literal { literal: HirLiteral::Text { value } } => r matches Some(IrRenderText::Literal { value: v }) && v@ == value@,
            HirExprKind::Path { value } => r matches Some(IrRenderText::Binding { path }) && path@ == value@,
            HirExprKind::Pipeline { .. } => true,
            _ => r is None,
        },
        shown_text(r, *e),
{
    match &e.kind {
        HirExprKind::Literal { literal: HirLiteral::Text { value } } => Some(IrRenderText::Literal { value: value.clone() }),
        HirExprKind::Path { value } => Some(IrRenderText::Binding { path: value.clone() }),
        HirExprKind::Pipeline { input, .. } => match first_path_in_expr(input) {
            Some(p) => Some(IrRenderText::Binding { path: p.clone() }),
            None => None,
        },
        _ => None,
    }
}

/// The text after the last `/` of `s`, or all of it.
pub open spec fn after_last_slash(s: Seq<char>) -> Seq<char>
    decreases s.len(),
{
    if s.len() == 0 {
        s
    } else if s.last() == '/' {
        Seq::empty()
    } else {
        after_last_slash(s.drop_last()).push(s.last())
    }
}

/// The part of a call path after its last `/`.
fn last_segment(path: &String) -> (r: Vec<char>)
    ensures
        r@ == after_last_slash(path@),
        r@.len() <= path@.len(),
{
    let v = chars_of_string(path);
    let mut start: usize = 0;
    let mut i: usize = 0;
    while i < v.len()
        invariant
            i <= v@.len(),
            start <= i,
            after_last_slash(v@.take(i as int)) == v@.subrange(start as int, i as int),
        decreases v.len() - i,
    {
        let ghost t = v@.take(i + 1);
        assert(t.drop_last() =~= v@.take(i as int));
        if v[i] == '/' {
            start = i + 1;
            assert(v@.subrange(start as int, i + 1) =~= Seq::<char>::empty());
        } else {
            assert(v@.subrange(start as int, i + 1) =~= v@.subrange(start as int, i as int).push(v@[i as int]));
        }
        i = i + 1;
    }
    assert(v@.take(v@.len() as int) =~= v@);
    crate::text::slice_range(&v, start, v.len())
}

/// Whether `t` is the text that a leaf expression shows: a text literal as
/// itself, a path as a binding, anything else none.
pub open spec fn leaf_text(t: Option<IrRenderText>, e: HirExpr) -> bool {
    match e.kind {
        HirExprKind::Literal { literal: HirLiteral::Text { value } } => t matches Some(IrRenderText::Literal { value: v }) && v@ == value@,
        HirExprKind::Path { value } => t matches Some(IrRenderText::Binding { path }) && path@ == value@,
        _ => t is None,
    }
}

/// Whether `e` is a `List/map` stage.
pub open spec fn is_map_stage(e: HirExpr) -> bool {
    e.kind matches HirExprKind::ListCall { op: HirListOp::MapItems, .. }
}

/// The first `List/map` stage at or after `i`.
pub open spec fn first_map_stage_from(stages: Seq<HirExpr>, i: int) -> Option<int>
    decreases stages.len() - i,
{
    if i < 0 || i >= stages.len() {
        None
    } else if is_map_stage(stages[i]) {
        Some(i)
    } else {
        first_map_stage_from(stages, i + 1)
    }
}

/// The id that the allocator gives to `prefix` when its counter is `next`.
pub open spec fn node_id(prefix: Seq<char>, next: u64) -> Seq<char> {
    prefix + "_"@ + crate::text::dec_chars(next as nat)
}

/// The top of the node of a pipeline, the allocator's counter being `next`:
/// at its first `List/map` stage, a list map over the input's first path,
/// with one child where the stage has a `new:` argument; without one, a
/// text bound to the input's first path.
pub open spec fn pipeline_top(r: IrRenderNode, input: HirExpr, stages: Seq<HirExpr>, next: u64) -> bool {
    &&& r.source_path is None
    &&& match first_map_stage_from(stages, 0) {
        Some(i) => {
            &&& r.kind == IrRenderKind::ListMap
            &&& r.id@ == node_id("list_map"@, next)
            &&& r.text is None
            &&& match super::hirq::first_path(input) {
                Some(p) => r.collection_path matches Some(c) && c@ == p,
                None => r.collection_path is None,
            }
            &&& r.children@.len() == (if super::hirq::arg_index(stages[i].kind->ListCall_args@, "new"@) is Some {
                1int
            } else {
                0int
            })
        },
        None => {
            &&& r.kind == IrRenderKind::Text
            &&& r.id@ == node_id("binding"@, next)
            &&& r.collection_path is None
            &&& r.children@.len() == 0
            &&& match super::hirq::first_path(input) {
                Some(p) => r.text matches Some(IrRenderText::Binding { path }) && path@ == p,
                None => r.text is None,
            }
        },
    }
}

/// The top of the node of an expression, the allocator's counter being
/// `next`: an element call gives its element's kind, the source its
/// `element:` argument names and its label or text; a pipeline as
/// `pipeline_top`; a list a panel with one child per item; anything else
/// an unknown node with the leaf's text.
pub open spec fn node_top(r: IrRenderNode, e: HirExpr, next: u64, entries: Seq<SourceEntry>) -> bool {
    match e.kind {
        HirExprKind::HostCall { path, args } => {
            &&& r.kind == element_kind(path@)
            &&& opt_text_view(r.source_path) == args_source(args@, entries)
            &&& r.collection_path is None
            &&& args_text(r.text, args@)
        },
        HirExprKind::Pipeline { input, stages } => pipeline_top(r, *input, stages@, next),
        HirExprKind::List { items } => {
            &&& r.kind == IrRenderKind::Panel
            &&& r.id@ == node_id("list"@, next)
            &&& r.source_path is None
            &&& r.collection_path is None
            &&& r.text is None
            &&& r.children@.len() == items@.len()
        },
        _ => {
            &&& r.kind == IrRenderKind::Unknown
            &&& r.id@ == node_id("unknown"@, next)
            &&& r.source_path is None
            &&& r.collection_path is None
            &&& r.children@.len() == 0
            &&& leaf_text(r.text, e)
        },
    }
}

/// Whether `t` is the text that expression `e` shows: a text literal as
/// itself, a path as a binding, a pipeline as a binding to its input's
/// first path; anything else none.
pub open spec fn shown_text(t: Option<IrRenderText>, e: HirExpr) -> bool {
    match e.kind {
        HirExprKind::Literal { literal: HirLiteral::Text { value } } => t matches Some(IrRenderText::Literal { value: v }) && v@ == value@,
        HirExprKind::Path { value } => t matches Some(IrRenderText::Binding { path }) && path@ == value@,
        HirExprKind::Pipeline { input, .. } => match super::hirq::first_path(*input) {
            Some(p) => t matches Some(IrRenderText::Binding { path }) && path@ == p,
            None => t is None,
        },
        _ => t is None,
    }
}

/// Whether `t` is the text of an element call with `args`: that of its
/// `label:` argument, else of its `text:` argument, else none.
pub open spec fn args_text(t: Option<IrRenderText>, args: Seq<HirCallArg>) -> bool {
    match super::hirq::arg_index(args, "label"@) {
        Some(k) => shown_text(t, args[k].value),
        None => match super::hirq::arg_index(args, "text"@) {
            Some(k) => shown_text(t, args[k].value),
            None => t is None,
        },
    }
}

/// The source an element call with `args` is bound to: the base of the
/// path its `element:` argument names.
pub open spec fn args_source(args: Seq<HirCallArg>, entries: Seq<SourceEntry>) -> Option<Seq<char>> {
    match super::hirq::arg_index(args, "element"@) {
        Some(k) => match super::hirq::path_of(args[k].value) {
            Some(p) => super::resolve::source_base(entries, p),
            None => None,
        },
        None => None,
    }
}

/// The argument that holds an element's children: `children:`, else
/// `cells:`.
pub open spec fn children_index(args: Seq<HirCallArg>) -> Option<int> {
    match super::hirq::arg_index(args, "children"@) {
        Some(k) => Some(k),
        None => super::hirq::arg_index(args, "cells"@),
    }
}

/// An optional text as plain values.
pub open spec fn opt_text_view(o: Option<String>) -> Option<Seq<char>> {
    match o {
        Some(x) => Some(x@),
        None => None,
    }
}

/// The node of an expression under the document.
pub fn render_node_from_expr(e: &HirExpr, sources: &SourceInventory, ids: &mut RenderIdAllocator) -> (r: IrRenderNode)
    ensures
        tree_backed(r, sources.entries@),
        node_top(r, *e, old(ids).next, sources.entries@),
    decreases e, 3int,
{
    match &e.kind {
        HirExprKind::HostCall { path, args } => render_host_node(path, args, sources, ids),
        HirExprKind::Pipeline { input, stages } => render_pipeline_node(input, stages, sources, ids),
        HirExprKind::List { items } => {
            proof {
                reveal_strlit("list");
            }
            let id = ids.next_id(&chars_of("list"));
            let children = render_list(items, sources, ids);
            IrRenderNode {
                id,
                kind: IrRenderKind::Panel,
                source_path: None,
                collection_path: None,
                text: None,
                children,
            }
        },
        _ => {
            proof {
                reveal_strlit("unknown");
            }
            let id = ids.next_id(&chars_of("unknown"));
            IrRenderNode {
                id,
                kind: IrRenderKind::Unknown,
                source_path: None,
                collection_path: None,
                text: render_text_from_expr(e),
                children: Vec::new(),
            }
        },
    }
}

/// The nodes of a list of expressions, in order.
pub fn render_list(items: &Vec<HirExpr>, sources: &SourceInventory, ids: &mut RenderIdAllocator) -> (r: Vec<IrRenderNode>)
    ensures
        nodes_backed(r@, sources.entries@),
        r@.len() == items@.len(),
    decreases items@, 2int,
{
    let mut out: Vec<IrRenderNode> = Vec::new();
    let mut i: usize = 0;
    while i < items.len()
        invariant
            i <= items@.len(),
            out@.len() == i,
            nodes_backed(out@, sources.entries@),
        decreases items.len() - i,
    {
        proof {
            assert(decreases_to!(items@ => items@[i as int]));
        }
        let n = render_node_from_expr(&items[i], sources, ids);
        out.push(n);
        i = i + 1;
    }
    out
}

/// The children of a node: each item of a list, or the one expression.
pub fn render_children_from_expr(e: &HirExpr, sources: &SourceInventory, ids: &mut RenderIdAllocator) -> (r: Vec<IrRenderNode>)
    ensures
        nodes_backed(r@, sources.entries@),
        match e.kind {
            HirExprKind::List { items } => r@.len() == items@.len(),
            _ => r@.len() == 1 && node_top(r@[0], *e, old(ids).next, sources.entries@),
        },
    decreases e, 4int,
{
    match &e.kind {
        HirExprKind::List { items } => render_list(items, sources, ids),
        _ => {
            let n = render_node_from_expr(e, sources, ids);
            let mut v: Vec<IrRenderNode> = Vec::new();
            v.push(n);
            v
        },
    }
}

/// The source base that the `element:` argument names.
fn element_source(args: &Vec<HirCallArg>, sources: &SourceInventory) -> (r: Option<String>)
    ensures
        r matches Some(p) ==> backed(sources.entries@, p@),
        opt_text_view(r) == args_source(args@, sources.entries@),
{
    match named_arg(args, "element") {
        Some(a) => match path_expr(a) {
            Some(p) => resolve_source_base(sources, &chars_of_string(p)),
            None => None,
        },
        None => None,
    }
}

/// The text of the `label:` argument, else of the `text:` argument.
fn node_text(args: &Vec<HirCallArg>) -> (r: Option<IrRenderText>)
    ensures
        args_text(r, args@),
{
    match named_arg(args, "label") {
        Some(a) => render_text_from_expr(a),
        None => match named_arg(args, "text") {
            Some(a) => render_text_from_expr(a),
            None => None,
        },
    }
}

/// The node of an element call: its kind, the source its `element:`
/// argument names, its label or text, and its children or cells.
#[verifier::spinoff_prover]
#[verifier::rlimit(100)]
pub fn render_host_node(path: &String, args: &Vec<HirCallArg>, sources: &SourceInventory, ids: &mut RenderIdAllocator) -> (r: IrRenderNode)
    ensures
        tree_backed(r, sources.entries@),
        r.kind == element_kind(path@),
        opt_text_view(r.source_path) == args_source(args@, sources.entries@),
        r.collection_path is None,
        args_text(r.text, args@),
    decreases args@, 3int,
{
    let kind = element_kind_of(path);
    let source_path = element_source(args, sources);
    let text = node_text(args);
    let children_at = match named_arg_index(args, "children") {
        Some(k) => Some(k),
        None => named_arg_index(args, "cells"),
    };
    let children = match children_at {
        Some(k) => {
            proof {
                assert(decreases_to!(args@ => args@[k as int]));
            }
            render_children_from_expr(&args[k].value, sources, ids)
        },
        None => Vec::new(),
    };
    let seg = last_segment(path);
    let id = ids.next_id(&seg);
    IrRenderNode { id, kind, source_path, collection_path: None, text, children }
}

/// The node of a pipeline: a list map over its input collection where a
/// stage is `List/map`, else a text bound to its input.
pub fn render_pipeline_node(input: &HirExpr, stages: &Vec<HirExpr>, sources: &SourceInventory, ids: &mut RenderIdAllocator) -> (r: IrRenderNode)
    ensures
        tree_backed(r, sources.entries@),
        pipeline_top(r, *input, stages@, old(ids).next),
    decreases stages@, 3int,
{
    let ghost n0 = ids.next;
    let mut i: usize = 0;
    while i < stages.len()
        invariant
            i <= stages@.len(),
            ids.next == n0,
            n0 == old(ids).next,
            first_map_stage_from(stages@, 0) == first_map_stage_from(stages@, i as int),
        decreases stages.len() - i,
    {
        match &stages[i].kind {
            HirExprKind::ListCall { op: HirListOp::MapItems, args } => {
                proof {
                    reveal_strlit("list_map");
                }
                let id = ids.next_id(&chars_of("list_map"));
                let collection_path = match first_path_in_expr(input) {
                    Some(p) => Some(p.clone()),
                    None => None,
                };
                let children = match named_arg_index(args, "new") {
                    Some(k) => {
                        proof {
                            assert(decreases_to!(stages@ => stages@[i as int]));
                            assert(decreases_to!(stages@[i as int] => stages@[i as int].kind));
                            assert(decreases_to!(stages@[i as int].kind => stages@[i as int].kind->ListCall_args));
                            assert(decreases_to!(stages@[i as int].kind->ListCall_args => stages@[i as int].kind->ListCall_args@));
                            assert(decreases_to!(args@ => args@[k as int]));
                        }
                        let n = render_node_from_expr(&args[k].value, sources, ids);
                        let mut v: Vec<IrRenderNode> = Vec::new();
                        v.push(n);
                        v
                    },
                    None => Vec::new(),
                };
                return IrRenderNode {
                    id,
                    kind: IrRenderKind::ListMap,
                    source_path: None,
                    collection_path,
                    text: None,
                    children,
                };
            },
            _ => {},
        }
        i = i + 1;
    }
    proof {
        reveal_strlit("binding");
    }
    let id = ids.next_id(&chars_of("binding"));
    let text = match first_path_in_expr(input) {
        Some(p) => Some(IrRenderText::Binding { path: p.clone() }),
        None => None,
    };
    IrRenderNode {
        id,
        kind: IrRenderKind::Text,
        source_path: None,
        collection_path: None,
        text,
        children: Vec::new(),
    }
}

/// What the render tree of a module is: there exactly when the module has
/// a document root; then a root node with id `root_0` over the node of
/// that root expression.
pub open spec fn tree_result(t: Option<IrRenderNode>, hir: HirModule, entries: Seq<SourceEntry>) -> bool {
    &&& (t is Some <==> document_root(hir) is Some)
    &&& (t matches Some(n) ==> {
        &&& n.kind == IrRenderKind::Root
        &&& n.id@ == node_id("root"@, 0)
        &&& n.children@.len() == 1
        &&& n.source_path is None && n.collection_path is None && n.text is None
        &&& node_top(n.children@[0], document_root(hir)->0, 1, entries)
    })
}

/// The `root:` argument of the `Document/new` call that the module's
/// `document` record holds.
pub open spec fn document_root(hir: HirModule) -> Option<HirExpr> {
    match super::hirq::record_item_index(hir.items@, "document"@) {
        Some(i) => match hir.items@[i] {
            crate::hir::HirItem::Record(rec) => match rec.value {
                Some(v) => match v.kind {
                    HirExprKind::HostCall { path, args } => if path@ == "Document/new"@ {
                        match super::hirq::arg_index(args@, "root"@) {
                            Some(j) => Some(args@[j].value),
                            None => None,
                        }
                    } else {
                        None
                    },
                    _ => None,
                },
                None => None,
            },
            _ => None,
        },
        None => None,
    }
}

/// The render tree of a module: a root over the node of the `root:`
/// argument of the `Document/new` call in its `document` record.
pub fn render_tree_from_hir(hir: &HirModule, sources: &SourceInventory) -> (r: Option<IrRenderNode>)
    ensures
        r matches Some(n) ==> tree_backed(n, sources.entries@) && n.kind == IrRenderKind::Root,
        r is Some <==> document_root(*hir) is Some,
        tree_result(r, *hir, sources.entries@),
        r matches Some(n) ==> n.children@.len() == 1 && n.source_path is None && n.collection_path is None && n.text is None,
        r matches Some(n) ==> n.id@ == node_id("root"@, 0) && node_top(
            n.children@[0],
            document_root(*hir)->0,
            1,
            sources.entries@,
        ),
{
    let document = match hir_record(hir, "document") {
        Some(rec) => rec,
        None => return None,
    };
    let value = match &document.value {
        Some(v) => v,
        None => return None,
    };
    let root = match &value.kind {
        HirExprKind::HostCall { path, args } => {
            if crate::text::str_eq(path, "Document/new") {
                match named_arg(args, "root") {
                    Some(r) => r,
                    None => return None,
                }
            } else {
                return None;
            }
        },
        _ => return None,
    };
    assert(document_root(*hir) == Some(*root));
    let mut ids = RenderIdAllocator::new();
    proof {
        reveal_strlit("root");
    }
    let id = ids.next_id(&chars_of("root"));
    assert(ids.next == 1);
    let child = render_node_from_expr(root, sources, &mut ids);
    let mut children: Vec<IrRenderNode> = Vec::new();
    children.push(child);
    assert(children@[0] == child);
    Some(IrRenderNode {
        id,
        kind: IrRenderKind::Root,
        source_path: None,
        collection_path: None,
        text: None,
        children,
    })
}

} // verus!
