//! What lowering promises: the language features an AST uses, and the
//! constructs that lowering cannot carry.
use vstd::prelude::*;
use crate::syntax::{
    AstBinding, AstCallArg, AstExpr, AstExprKind, AstItem, AstModule, AstRecord, AstWhenArm,
};
use crate::text::has_prefix;

verus! {

/// Feature numbers, in the order of [`crate::hir::HirFeature`].
pub open spec fn f_source() -> int { 0 }
pub open spec fn f_hold() -> int { 1 }
pub open spec fn f_then() -> int { 2 }
pub open spec fn f_when() -> int { 3 }
pub open spec fn f_while() -> int { 4 }
pub open spec fn f_latest() -> int { 5 }
pub open spec fn f_block() -> int { 6 }
pub open spec fn f_list_literal() -> int { 7 }
pub open spec fn f_list_append() -> int { 8 }
pub open spec fn f_list_remove() -> int { 9 }
pub open spec fn f_list_retain() -> int { 10 }
pub open spec fn f_list_map() -> int { 11 }
pub open spec fn f_list_count() -> int { 12 }
pub open spec fn f_list_range() -> int { 13 }
pub open spec fn f_host_element() -> int { 14 }
pub open spec fn f_host_document() -> int { 15 }
pub open spec fn f_math_call() -> int { 16 }
pub open spec fn f_function_definition() -> int { 17 }
pub open spec fn f_function_call() -> int { 18 }
pub open spec fn f_pipeline() -> int { 19 }
pub open spec fn f_binary() -> int { 20 }
pub open spec fn f_render_expression() -> int { 21 }

/// The feature that a `List/...` operation path names, if it is known.
pub open spec fn list_op_feature(path: Seq<char>) -> Option<int> {
    if path == "List/append"@ {
        Some(f_list_append())
    } else if path == "List/remove"@ {
        Some(f_list_remove())
    } else if path == "List/retain"@ {
        Some(f_list_retain())
    } else if path == "List/map"@ {
        Some(f_list_map())
    } else if path == "List/count"@ {
        Some(f_list_count())
    } else if path == "List/range"@ {
        Some(f_list_range())
    } else {
        None
    }
}

/// The features that a call of `path` uses.
pub open spec fn call_features(path: Seq<char>) -> Set<int> {
    if has_prefix(path, "Element/"@) {
        set![f_host_element()]
    } else if has_prefix(path, "Document/"@) {
        set![f_host_document()]
    } else if has_prefix(path, "List/"@) {
        match list_op_feature(path) {
            Some(f) => set![f],
            None => Set::empty(),
        }
    } else if has_prefix(path, "Math/"@) {
        set![f_math_call()]
    } else {
        set![f_function_call()]
    }
}

/// A call that lowering reports: an unknown `List/...` operation, or a
/// `Math/...` operation other than `add` and `sum`.
pub open spec fn call_issue(path: Seq<char>) -> bool {
    if has_prefix(path, "Element/"@) || has_prefix(path, "Document/"@) {
        false
    } else if has_prefix(path, "List/"@) {
        list_op_feature(path) is None
    } else if has_prefix(path, "Math/"@) {
        path != "Math/add"@ && path != "Math/sum"@
    } else {
        false
    }
}

/// The features an expression node uses by itself.
pub open spec fn node_features(k: AstExprKind) -> Set<int> {
    match k {
        AstExprKind::Source => set![f_source()],
        AstExprKind::List { .. } => set![f_list_literal()],
        AstExprKind::Block { .. } => set![f_block()],
        AstExprKind::When { .. } => set![f_when()],
        AstExprKind::While { .. } => set![f_while()],
        AstExprKind::Then { .. } => set![f_then()],
        AstExprKind::Hold { .. } => set![f_hold()],
        AstExprKind::Latest { .. } => set![f_latest()],
        AstExprKind::Call { path, .. } => call_features(path@),
        AstExprKind::Pipeline { .. } => set![f_pipeline()],
        AstExprKind::Binary { .. } => set![f_binary()],
        _ => Set::empty(),
    }
}

/// The expression node by itself cannot be lowered faithfully.
pub open spec fn node_issue(k: AstExprKind) -> bool {
    match k {
        AstExprKind::Raw => true,
        AstExprKind::Call { path, .. } => call_issue(path@),
        _ => false,
    }
}

/// Features used by an expression and everything below it.
pub open spec fn expr_features(e: AstExpr) -> Set<int>
    decreases e, 1int,
{
    node_features(e.kind) + match e.kind {
        AstExprKind::Record { entries } => records_features(entries@),
        AstExprKind::List { items } => exprs_features(items@),
        AstExprKind::Block { bindings } => bindings_features(bindings@),
        AstExprKind::When { arms } => arms_features(arms@),
        AstExprKind::While { arms } => arms_features(arms@),
        AstExprKind::Then { body } => expr_features(*body),
        AstExprKind::Hold { body, .. } => expr_features(*body),
        AstExprKind::Latest { branches } => exprs_features(branches@),
        AstExprKind::Call { args, .. } => args_features(args@),
        AstExprKind::Pipeline { input, stages } => expr_features(*input) + exprs_features(stages@),
        AstExprKind::Binary { left, right, .. } => expr_features(*left) + expr_features(*right),
        _ => Set::empty(),
    }
}

pub open spec fn exprs_features(s: Seq<AstExpr>) -> Set<int>
    decreases s, 0int,
{
    if s.len() == 0 {
        Set::empty()
    } else {
        proof {
            assert(decreases_to!(s => s[s.len() - 1]));
        }
        exprs_features(s.drop_last()) + expr_features(s[s.len() - 1])
    }
}

/// Features used by a record: a `document` or `view` record renders, and
/// its value and children use their own.
pub open spec fn record_features(r: AstRecord) -> Set<int>
    decreases r, 1int,
{
    (if r.key@ == "document"@ || r.key@ == "view"@ {
        set![f_render_expression()]
    } else {
        Set::empty()
    }) + (match r.value {
        Some(v) => expr_features(v),
        None => Set::empty(),
    }) + records_features(r.children@)
}

pub open spec fn records_features(s: Seq<AstRecord>) -> Set<int>
    decreases s, 0int,
{
    if s.len() == 0 {
        Set::empty()
    } else {
        proof {
            assert(decreases_to!(s => s[s.len() - 1]));
        }
        records_features(s.drop_last()) + record_features(s[s.len() - 1])
    }
}

pub open spec fn bindings_features(s: Seq<AstBinding>) -> Set<int>
    decreases s, 0int,
{
    if s.len() == 0 {
        Set::empty()
    } else {
        proof {
            assert(decreases_to!(s => s[s.len() - 1]));
        }
        bindings_features(s.drop_last()) + expr_features(s[s.len() - 1].value)
    }
}

pub open spec fn arms_features(s: Seq<AstWhenArm>) -> Set<int>
    decreases s, 0int,
{
    if s.len() == 0 {
        Set::empty()
    } else {
        proof {
            assert(decreases_to!(s => s[s.len() - 1]));
        }
        arms_features(s.drop_last()) + expr_features(s[s.len() - 1].value)
    }
}

pub open spec fn args_features(s: Seq<AstCallArg>) -> Set<int>
    decreases s, 0int,
{
    if s.len() == 0 {
        Set::empty()
    } else {
        proof {
            assert(decreases_to!(s => s[s.len() - 1]));
        }
        args_features(s.drop_last()) + expr_features(s[s.len() - 1].value)
    }
}

/// Somewhere in the expression is a construct that lowering reports.
pub open spec fn expr_issue(e: AstExpr) -> bool
    decreases e, 1int,
{
    node_issue(e.kind) || match e.kind {
        AstExprKind::Record { entries } => records_issue(entries@),
        AstExprKind::List { items } => exprs_issue(items@),
        AstExprKind::Block { bindings } => bindings_issue(bindings@),
        AstExprKind::When { arms } => arms_issue(arms@),
        AstExprKind::While { arms } => arms_issue(arms@),
        AstExprKind::Then { body } => expr_issue(*body),
        AstExprKind::Hold { body, .. } => expr_issue(*body),
        AstExprKind::Latest { branches } => exprs_issue(branches@),
        AstExprKind::Call { args, .. } => args_issue(args@),
        AstExprKind::Pipeline { input, stages } => expr_issue(*input) || exprs_issue(stages@),
        AstExprKind::Binary { left, right, .. } => expr_issue(*left) || expr_issue(*right),
        _ => false,
    }
}

pub open spec fn exprs_issue(s: Seq<AstExpr>) -> bool
    decreases s, 0int,
{
    if s.len() == 0 {
        false
    } else {
        proof {
            assert(decreases_to!(s => s[s.len() - 1]));
        }
        exprs_issue(s.drop_last()) || expr_issue(s[s.len() - 1])
    }
}

pub open spec fn record_issue(r: AstRecord) -> bool
    decreases r, 1int,
{
    (match r.value {
        Some(v) => expr_issue(v),
        None => false,
    }) || records_issue(r.children@)
}

pub open spec fn records_issue(s: Seq<AstRecord>) -> bool
    decreases s, 0int,
{
    if s.len() == 0 {
        false
    } else {
        proof {
            assert(decreases_to!(s => s[s.len() - 1]));
        }
        records_issue(s.drop_last()) || record_issue(s[s.len() - 1])
    }
}

pub open spec fn bindings_issue(s: Seq<AstBinding>) -> bool
    decreases s, 0int,
{
    if s.len() == 0 {
        false
    } else {
        proof {
            assert(decreases_to!(s => s[s.len() - 1]));
        }
        bindings_issue(s.drop_last()) || expr_issue(s[s.len() - 1].value)
    }
}

pub open spec fn arms_issue(s: Seq<AstWhenArm>) -> bool
    decreases s, 0int,
{
    if s.len() == 0 {
        false
    } else {
        proof {
            assert(decreases_to!(s => s[s.len() - 1]));
        }
        arms_issue(s.drop_last()) || expr_issue(s[s.len() - 1].value)
    }
}

pub open spec fn args_issue(s: Seq<AstCallArg>) -> bool
    decreases s, 0int,
{
    if s.len() == 0 {
        false
    } else {
        proof {
            assert(decreases_to!(s => s[s.len() - 1]));
        }
        args_issue(s.drop_last()) || expr_issue(s[s.len() - 1].value)
    }
}

/// Features used by a module item; a function definition adds its own.
pub open spec fn item_features(item: AstItem) -> Set<int> {
    match item {
        AstItem::Record(r) => record_features(r),
        AstItem::Function(f) => set![f_function_definition()] + expr_features(f.body),
        AstItem::Expression(e) => expr_features(e),
    }
}

pub open spec fn item_issue(item: AstItem) -> bool {
    match item {
        AstItem::Record(r) => record_issue(r),
        AstItem::Function(f) => expr_issue(f.body),
        AstItem::Expression(e) => expr_issue(e),
    }
}

pub open spec fn items_features(s: Seq<AstItem>) -> Set<int>
    decreases s.len(),
{
    if s.len() == 0 {
        Set::empty()
    } else {
        items_features(s.drop_last()) + item_features(s.last())
    }
}

pub open spec fn items_issue(s: Seq<AstItem>) -> bool
    decreases s.len(),
{
    if s.len() == 0 {
        false
    } else {
        items_issue(s.drop_last()) || item_issue(s.last())
    }
}

/// The features an AST module uses.
pub open spec fn module_features(m: AstModule) -> Set<int> {
    items_features(m.items@)
}

/// Somewhere in the AST module is a construct that lowering reports.
pub open spec fn module_issue(m: AstModule) -> bool {
    items_issue(m.items@)
}

} // verus!
