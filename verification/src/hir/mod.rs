//! The high-level IR: the AST with calls classified, plus the features a
//! module uses, its record dependencies and what lowering could not carry.
use vstd::prelude::*;
use crate::syntax::{
    AstBinaryOp, AstBinding, AstCallArg, AstExpr, AstExprKind, AstItem, AstModule, AstRecord,
    AstWhenArm, ParsedModule, Span,
};
use crate::text::{chars_of, chars_of_string, push_all, push_str, starts_with, string_of};
use crate::syntax::expr::is_lit;
use crate::compiler::reads::{views, lemma_views_push};
use crate::compiler::hirq::{
    args_paths, arms_paths, bindings_paths, child_value_paths, entry_paths, expr_paths, exprs_paths,
    opt_value_paths,
};

pub mod spec;

use spec::{
    args_features, args_issue, arms_features, arms_issue, bindings_features, bindings_issue,
    call_features, call_issue, expr_features, expr_issue, exprs_features, exprs_issue,
    item_features, item_issue, items_features, items_issue, list_op_feature, module_features,
    module_issue, record_features, record_issue, records_features, records_issue,
};

verus! {

#[derive(Debug)]
pub struct HirModule {
    pub parsed: ParsedModule,
    pub items: Vec<HirItem>,
    pub features: Vec<HirFeature>,
    pub dependencies: Vec<HirDependency>,
    pub diagnostics: Vec<HirDiagnostic>,
}

#[derive(Debug)]
pub enum HirItem {
    Record(HirRecord),
    Function(HirFunction),
    Expression(HirExpr),
}

#[derive(Debug)]
pub struct HirRecord {
    pub key: String,
    pub value: Option<HirExpr>,
    pub span: Span,
    pub children: Vec<HirRecord>,
}

#[derive(Debug)]
pub struct HirFunction {
    pub name: String,
    pub params: Vec<String>,
    pub body: HirExpr,
    pub span: Span,
}

#[derive(Debug)]
pub struct HirExpr {
    pub kind: HirExprKind,
    pub span: Span,
    pub raw: String,
}

#[derive(Debug)]
pub enum HirExprKind {
    Source,
    Literal { literal: HirLiteral },
    Path { value: String },
    Tag { value: String },
    Passed,
    Skip,
    Record { entries: Vec<HirRecord> },
    List { items: Vec<HirExpr> },
    Block { bindings: Vec<HirBinding> },
    When { arms: Vec<HirWhenArm> },
    While { arms: Vec<HirWhenArm> },
    Then { body: Box<HirExpr> },
    Hold { state: String, body: Box<HirExpr> },
    Latest { branches: Vec<HirExpr> },
    HostCall { path: String, args: Vec<HirCallArg> },
    ListCall { op: HirListOp, args: Vec<HirCallArg> },
    FunctionCall { path: String, args: Vec<HirCallArg> },
    Pipeline { input: Box<HirExpr>, stages: Vec<HirExpr> },
    Binary { op: AstBinaryOp, left: Box<HirExpr>, right: Box<HirExpr> },
    Unsupported { reason: String },
}

#[derive(Debug)]
pub enum HirLiteral {
    Number { value: i64 },
    Bool { value: bool },
    Text { value: String },
}

#[derive(Debug)]
pub struct HirBinding {
    pub name: String,
    pub value: HirExpr,
    pub span: Span,
}

#[derive(Debug)]
pub struct HirCallArg {
    pub name: String,
    pub value: HirExpr,
    pub span: Span,
}

#[derive(Debug)]
pub struct HirWhenArm {
    pub pattern: String,
    pub value: HirExpr,
    pub span: Span,
}

#[derive(Clone, Copy, Debug, PartialEq, Eq)]
pub enum HirFeature {
    Source,
    Hold,
    Then,
    When,
    While,
    Latest,
    Block,
    ListLiteral,
    ListAppend,
    ListRemove,
    ListRetain,
    ListMap,
    ListCount,
    ListRange,
    HostElement,
    HostDocument,
    MathCall,
    FunctionDefinition,
    FunctionCall,
    Pipeline,
    Binary,
    RenderExpression,
}

#[derive(Debug)]
pub struct HirDependency {
    pub from: String,
    pub to: String,
    pub span: Span,
}

#[derive(Debug)]
pub struct HirDiagnostic {
    pub span: Span,
    pub message: String,
}

#[derive(Debug)]
pub enum HirListOp {
    Append,
    Remove,
    Retain,
    MapItems,
    Count,
    Range,
    Unknown { path: String },
}

/// The position of a feature in declaration order.
pub open spec fn feature_index(f: HirFeature) -> int {
    match f {
        HirFeature::Source => 0,
        HirFeature::Hold => 1,
        HirFeature::Then => 2,
        HirFeature::When => 3,
        HirFeature::While => 4,
        HirFeature::Latest => 5,
        HirFeature::Block => 6,
        HirFeature::ListLiteral => 7,
        HirFeature::ListAppend => 8,
        HirFeature::ListRemove => 9,
        HirFeature::ListRetain => 10,
        HirFeature::ListMap => 11,
        HirFeature::ListCount => 12,
        HirFeature::ListRange => 13,
        HirFeature::HostElement => 14,
        HirFeature::HostDocument => 15,
        HirFeature::MathCall => 16,
        HirFeature::FunctionDefinition => 17,
        HirFeature::FunctionCall => 18,
        HirFeature::Pipeline => 19,
        HirFeature::Binary => 20,
        HirFeature::RenderExpression => 21,
    }
}

/// The feature at a position of the declaration order.
pub fn feature_at(i: usize) -> (f: HirFeature)
    requires
        i < 22,
    ensures
        feature_index(f) == i,
{
    if i == 0 { HirFeature::Source }
    else if i == 1 { HirFeature::Hold }
    else if i == 2 { HirFeature::Then }
    else if i == 3 { HirFeature::When }
    else if i == 4 { HirFeature::While }
    else if i == 5 { HirFeature::Latest }
    else if i == 6 { HirFeature::Block }
    else if i == 7 { HirFeature::ListLiteral }
    else if i == 8 { HirFeature::ListAppend }
    else if i == 9 { HirFeature::ListRemove }
    else if i == 10 { HirFeature::ListRetain }
    else if i == 11 { HirFeature::ListMap }
    else if i == 12 { HirFeature::ListCount }
    else if i == 13 { HirFeature::ListRange }
    else if i == 14 { HirFeature::HostElement }
    else if i == 15 { HirFeature::HostDocument }
    else if i == 16 { HirFeature::MathCall }
    else if i == 17 { HirFeature::FunctionDefinition }
    else if i == 18 { HirFeature::FunctionCall }
    else if i == 19 { HirFeature::Pipeline }
    else if i == 20 { HirFeature::Binary }
    else { HirFeature::RenderExpression }
}

/// Features seen, dependencies and diagnostics gathered while lowering.
pub struct LowerContext {
    pub flags: Vec<bool>,
    pub dependencies: Vec<HirDependency>,
    pub diagnostics: Vec<HirDiagnostic>,
}

/// `after` is `before` with the feature set `add` switched on, and the
/// diagnostics grow exactly when `issue` holds.
pub open spec fn lowered(before: LowerContext, after: LowerContext, add: Set<int>, issue: bool) -> bool {
    &&& after.flags@.len() == 22
    &&& forall|i: int| 0 <= i < 22 ==> (#[trigger] after.flags@[i] <==> before.flags@[i] || add.contains(i))
    &&& after.diagnostics@.len() >= before.diagnostics@.len()
    &&& (after.diagnostics@.len() > before.diagnostics@.len()) == issue
}

/// Diagnostics as plain values: span and message.
pub open spec fn diag_view(d: Seq<HirDiagnostic>) -> Seq<(Span, Seq<char>)> {
    d.map_values(|x: HirDiagnostic| (x.span, x.message@))
}

/// `after` has the diagnostics of `before` followed by `d`.
pub open spec fn diags_added(before: LowerContext, after: LowerContext, d: Seq<(Span, Seq<char>)>) -> bool {
    diag_view(after.diagnostics@) == diag_view(before.diagnostics@) + d
}

/// The diagnostic of a call of `path` at `span`: an unknown `List/`
/// operation, or a `Math/` operation other than `add` and `sum`.
pub open spec fn call_diag(path: Seq<char>, span: Span) -> Seq<(Span, Seq<char>)> {
    if crate::text::has_prefix(path, "Element/"@) || crate::text::has_prefix(path, "Document/"@) {
        Seq::empty()
    } else if crate::text::has_prefix(path, "List/"@) {
        if list_op_feature(path) is None {
            seq![(span, "unsupported List operation "@ + quoted_text(path, true))]
        } else {
            Seq::empty()
        }
    } else if crate::text::has_prefix(path, "Math/"@) {
        if path != "Math/add"@ && path != "Math/sum"@ {
            seq![(span, "unsupported Math operation "@ + quoted_text(path, true))]
        } else {
            Seq::empty()
        }
    } else {
        Seq::empty()
    }
}

/// The diagnostics that lowering `a` reports, in the order it meets them:
/// one per raw expression and per refused call, a call's after those of
/// its arguments.
pub open spec fn expr_diags(a: AstExpr) -> Seq<(Span, Seq<char>)>
    decreases a, 1int,
{
    match a.kind {
        AstExprKind::Record { entries } => records_diags(entries@),
        AstExprKind::List { items } => exprs_diags(items@),
        AstExprKind::Block { bindings } => bindings_diags(bindings@),
        AstExprKind::When { arms } => arms_diags(arms@),
        AstExprKind::While { arms } => arms_diags(arms@),
        AstExprKind::Then { body } => expr_diags(*body),
        AstExprKind::Hold { body, .. } => expr_diags(*body),
        AstExprKind::Latest { branches } => exprs_diags(branches@),
        AstExprKind::Call { path, args } => args_diags(args@) + call_diag(path@, a.span),
        AstExprKind::Pipeline { input, stages } => expr_diags(*input) + exprs_diags(stages@),
        AstExprKind::Binary { left, right, .. } => expr_diags(*left) + expr_diags(*right),
        AstExprKind::Raw => seq![(a.span, "expression kept as raw syntax: "@ + a.raw@)],
        _ => Seq::empty(),
    }
}

pub open spec fn exprs_diags(s: Seq<AstExpr>) -> Seq<(Span, Seq<char>)>
    decreases s, 0int,
{
    if s.len() == 0 {
        Seq::empty()
    } else {
        proof {
            assert(decreases_to!(s => s[s.len() - 1]));
        }
        exprs_diags(s.drop_last()) + expr_diags(s[s.len() - 1])
    }
}

pub open spec fn bindings_diags(s: Seq<AstBinding>) -> Seq<(Span, Seq<char>)>
    decreases s, 0int,
{
    if s.len() == 0 {
        Seq::empty()
    } else {
        proof {
            assert(decreases_to!(s => s[s.len() - 1]));
        }
        bindings_diags(s.drop_last()) + expr_diags(s[s.len() - 1].value)
    }
}

pub open spec fn arms_diags(s: Seq<AstWhenArm>) -> Seq<(Span, Seq<char>)>
    decreases s, 0int,
{
    if s.len() == 0 {
        Seq::empty()
    } else {
        proof {
            assert(decreases_to!(s => s[s.len() - 1]));
        }
        arms_diags(s.drop_last()) + expr_diags(s[s.len() - 1].value)
    }
}

pub open spec fn args_diags(s: Seq<AstCallArg>) -> Seq<(Span, Seq<char>)>
    decreases s, 0int,
{
    if s.len() == 0 {
        Seq::empty()
    } else {
        proof {
            assert(decreases_to!(s => s[s.len() - 1]));
        }
        args_diags(s.drop_last()) + expr_diags(s[s.len() - 1].value)
    }
}

/// The diagnostics of a record: its value's, then its children's.
pub open spec fn record_diags(r: AstRecord) -> Seq<(Span, Seq<char>)>
    decreases r, 1int,
{
    (match r.value {
        Some(v) => expr_diags(v),
        None => Seq::empty(),
    }) + records_diags(r.children@)
}

pub open spec fn records_diags(s: Seq<AstRecord>) -> Seq<(Span, Seq<char>)>
    decreases s, 0int,
{
    if s.len() == 0 {
        Seq::empty()
    } else {
        proof {
            assert(decreases_to!(s => s[s.len() - 1]));
        }
        records_diags(s.drop_last()) + record_diags(s[s.len() - 1])
    }
}

/// The diagnostics of an item.
pub open spec fn item_diags(item: AstItem) -> Seq<(Span, Seq<char>)> {
    match item {
        AstItem::Record(r) => record_diags(r),
        AstItem::Function(f) => expr_diags(f.body),
        AstItem::Expression(e) => expr_diags(e),
    }
}

/// The diagnostics of the items, in order.
pub open spec fn items_diags(s: Seq<AstItem>) -> Seq<(Span, Seq<char>)>
    decreases s.len(),
{
    if s.len() == 0 {
        Seq::empty()
    } else {
        items_diags(s.drop_last()) + item_diags(s.last())
    }
}

/// Dependencies as plain values: from, to and span.
pub open spec fn dep_view(d: Seq<HirDependency>) -> Seq<(Seq<char>, Seq<char>, Span)> {
    d.map_values(|x: HirDependency| (x.from@, x.to@, x.span))
}

/// `after` has the dependencies of `before` followed by `d`.
pub open spec fn deps_added(before: LowerContext, after: LowerContext, d: Seq<(Seq<char>, Seq<char>, Span)>) -> bool {
    dep_view(after.dependencies@) == dep_view(before.dependencies@) + d
}

/// The dependencies of record `key` on each path its lowered value reads.
pub open spec fn own_deps(key: Seq<char>, v: HirExpr) -> Seq<(Seq<char>, Seq<char>, Span)> {
    expr_paths(v).map_values(|p: Seq<char>| (key, p, v.span))
}

/// The dependencies noted while lowering to `h`: those of the records
/// inside it, in the order lowering meets them.
pub open spec fn hexpr_deps(h: HirExpr) -> Seq<(Seq<char>, Seq<char>, Span)>
    decreases h, 1int,
{
    match h.kind {
        HirExprKind::Record { entries } => hrecords_deps(entries@),
        HirExprKind::List { items } => hexprs_deps(items@),
        HirExprKind::Block { bindings } => hbindings_deps(bindings@),
        HirExprKind::When { arms } => harms_deps(arms@),
        HirExprKind::While { arms } => harms_deps(arms@),
        HirExprKind::Then { body } => hexpr_deps(*body),
        HirExprKind::Hold { body, .. } => hexpr_deps(*body),
        HirExprKind::Latest { branches } => hexprs_deps(branches@),
        HirExprKind::HostCall { args, .. } => hargs_deps(args@),
        HirExprKind::ListCall { args, .. } => hargs_deps(args@),
        HirExprKind::FunctionCall { args, .. } => hargs_deps(args@),
        HirExprKind::Pipeline { input, stages } => hexpr_deps(*input) + hexprs_deps(stages@),
        HirExprKind::Binary { left, right, .. } => hexpr_deps(*left) + hexpr_deps(*right),
        _ => Seq::empty(),
    }
}

pub open spec fn hexprs_deps(s: Seq<HirExpr>) -> Seq<(Seq<char>, Seq<char>, Span)>
    decreases s, 0int,
{
    if s.len() == 0 {
        Seq::empty()
    } else {
        proof {
            assert(decreases_to!(s => s[s.len() - 1]));
        }
        hexprs_deps(s.drop_last()) + hexpr_deps(s[s.len() - 1])
    }
}

pub open spec fn hbindings_deps(s: Seq<HirBinding>) -> Seq<(Seq<char>, Seq<char>, Span)>
    decreases s, 0int,
{
    if s.len() == 0 {
        Seq::empty()
    } else {
        proof {
            assert(decreases_to!(s => s[s.len() - 1]));
        }
        hbindings_deps(s.drop_last()) + hexpr_deps(s[s.len() - 1].value)
    }
}

pub open spec fn harms_deps(s: Seq<HirWhenArm>) -> Seq<(Seq<char>, Seq<char>, Span)>
    decreases s, 0int,
{
    if s.len() == 0 {
        Seq::empty()
    } else {
        proof {
            assert(decreases_to!(s => s[s.len() - 1]));
        }
        harms_deps(s.drop_last()) + hexpr_deps(s[s.len() - 1].value)
    }
}

pub open spec fn hargs_deps(s: Seq<HirCallArg>) -> Seq<(Seq<char>, Seq<char>, Span)>
    decreases s, 0int,
{
    if s.len() == 0 {
        Seq::empty()
    } else {
        proof {
            assert(decreases_to!(s => s[s.len() - 1]));
        }
        hargs_deps(s.drop_last()) + hexpr_deps(s[s.len() - 1].value)
    }
}

/// The dependencies of a lowered record: those inside its value, then its
/// own on the paths its value reads, then its children's.
pub open spec fn hrecord_deps(r: HirRecord) -> Seq<(Seq<char>, Seq<char>, Span)>
    decreases r, 1int,
{
    (match r.value {
        Some(v) => hexpr_deps(v) + own_deps(r.key@, v),
        None => Seq::empty(),
    }) + hrecords_deps(r.children@)
}

pub open spec fn hrecords_deps(s: Seq<HirRecord>) -> Seq<(Seq<char>, Seq<char>, Span)>
    decreases s, 0int,
{
    if s.len() == 0 {
        Seq::empty()
    } else {
        proof {
            assert(decreases_to!(s => s[s.len() - 1]));
        }
        hrecords_deps(s.drop_last()) + hrecord_deps(s[s.len() - 1])
    }
}

/// The dependencies noted while lowering an item.
pub open spec fn hitem_deps(item: HirItem) -> Seq<(Seq<char>, Seq<char>, Span)> {
    match item {
        HirItem::Record(r) => hrecord_deps(r),
        HirItem::Function(f) => hexpr_deps(f.body),
        HirItem::Expression(e) => hexpr_deps(e),
    }
}

/// The dependencies of the lowered items, in order.
pub open spec fn hitems_deps(s: Seq<HirItem>) -> Seq<(Seq<char>, Seq<char>, Span)>
    decreases s.len(),
{
    if s.len() == 0 {
        Seq::empty()
    } else {
        hitems_deps(s.drop_last()) + hitem_deps(s.last())
    }
}

impl LowerContext {
    pub fn new() -> (r: LowerContext)
        ensures
            r.flags@.len() == 22,
            forall|i: int| 0 <= i < 22 ==> !(#[trigger] r.flags@[i]),
            r.diagnostics@.len() == 0,
            r.dependencies@.len() == 0,
    {
        let mut flags: Vec<bool> = Vec::new();
        let mut i: usize = 0;
        while i < 22
            invariant
                i <= 22,
                flags@.len() == i,
                forall|k: int| 0 <= k < i ==> !(#[trigger] flags@[k]),
            decreases 22 - i,
        {
            flags.push(false);
            i = i + 1;
        }
        LowerContext { flags, dependencies: Vec::new(), diagnostics: Vec::new() }
    }

    /// Switches one feature on.
    pub fn insert(&mut self, f: usize)
        requires
            f < 22,
            old(self).flags@.len() == 22,
        ensures
            lowered(*old(self), *final(self), set![f as int], false),
            final(self).dependencies == old(self).dependencies,
            final(self).diagnostics == old(self).diagnostics,
    {
        self.flags.set(f, true);
    }

    /// Reports a construct that lowering cannot carry.
    pub fn report(&mut self, span: Span, message: String)
        requires
            old(self).flags@.len() == 22,
        ensures
            lowered(*old(self), *final(self), Set::empty(), true),
            final(self).dependencies == old(self).dependencies,
            diags_added(*old(self), *final(self), seq![(span, message@)]),
    {
        self.diagnostics.push(HirDiagnostic { span, message });
        assert(diag_view(self.diagnostics@) =~= diag_view(old(self).diagnostics@) + seq![(span, message@)]);
    }
}

proof fn lemma_lowered_trans(a: LowerContext, b: LowerContext, c: LowerContext, s1: Set<int>, s2: Set<int>, i1: bool, i2: bool)
    requires
        a.flags@.len() == 22,
        lowered(a, b, s1, i1),
        lowered(b, c, s2, i2),
    ensures
        lowered(a, c, s1 + s2, i1 || i2),
{
    assert forall|i: int| 0 <= i < 22 implies (#[trigger] c.flags@[i] <==> a.flags@[i] || (s1 + s2).contains(i)) by {
        assert(c.flags@[i] <==> b.flags@[i] || s2.contains(i));
        assert(b.flags@[i] <==> a.flags@[i] || s1.contains(i));
    }
}

proof fn lemma_lowered_refl(a: LowerContext)
    requires
        a.flags@.len() == 22,
    ensures
        lowered(a, a, Set::empty(), false),
{
}

/// `what`, in backquotes where `quoted`.
pub open spec fn quoted_text(what: Seq<char>, quoted: bool) -> Seq<char> {
    if quoted { seq!['`'] + what + seq!['`'] } else { what }
}

/// A message: `prefix` then `what`, optionally in backquotes.
fn message(prefix: &str, what: &String, quoted: bool) -> (r: String)
    ensures
        r@ == prefix@ + quoted_text(what@, quoted),
{
    let mut v: Vec<char> = Vec::new();
    push_str(&mut v, prefix);
    if quoted {
        v.push('`');
    }
    let w = chars_of_string(what);
    push_all(&mut v, &w);
    if quoted {
        v.push('`');
    }
    assert(v@ =~= prefix@ + quoted_text(what@, quoted));
    string_of(&v)
}

/// Whether `op` is the list operation that the `List/` call `path` names.
pub open spec fn list_op_ok(op: HirListOp, path: Seq<char>) -> bool {
    match op {
        HirListOp::Append => path == "List/append"@,
        HirListOp::Remove => path == "List/remove"@,
        HirListOp::Retain => path == "List/retain"@,
        HirListOp::MapItems => path == "List/map"@,
        HirListOp::Count => path == "List/count"@,
        HirListOp::Range => path == "List/range"@,
        HirListOp::Unknown { path: p } => p@ == path && list_op_feature(path) is None,
    }
}

/// Whether `k` is the kind that a call of `path` lowers to: `Element/` and
/// `Document/` calls go to the host, `List/` calls become list operations,
/// anything else is a function call.
pub open spec fn call_kind_ok(k: HirExprKind, path: Seq<char>) -> bool {
    if crate::text::has_prefix(path, "Element/"@) || crate::text::has_prefix(path, "Document/"@) {
        match k {
            HirExprKind::HostCall { path: p, .. } => p@ == path,
            _ => false,
        }
    } else if crate::text::has_prefix(path, "List/"@) {
        match k {
            HirExprKind::ListCall { op, .. } => list_op_ok(op, path),
            _ => false,
        }
    } else {
        match k {
            HirExprKind::FunctionCall { path: p, .. } => p@ == path,
            _ => false,
        }
    }
}

/// The arguments of a lowered call.
pub open spec fn call_args_of(k: HirExprKind) -> Seq<HirCallArg> {
    match k {
        HirExprKind::HostCall { args, .. } => args@,
        HirExprKind::ListCall { args, .. } => args@,
        HirExprKind::FunctionCall { args, .. } => args@,
        _ => Seq::empty(),
    }
}

/// Whether `h` is the lowering of `a`: the same span and text, and each
/// construct carried over with its parts lowered; a call classified by
/// its path; raw syntax kept as unsupported.
pub open spec fn lowers_to(h: HirExpr, a: AstExpr) -> bool
    decreases a, 2int,
{
    &&& h.span == a.span
    &&& h.raw@ == a.raw@
    &&& match a.kind {
        AstExprKind::Source => h.kind is Source,
        AstExprKind::Number { value } => match h.kind {
            HirExprKind::Literal { literal: HirLiteral::Number { value: v } } => v == value,
            _ => false,
        },
        AstExprKind::Bool { value } => match h.kind {
            HirExprKind::Literal { literal: HirLiteral::Bool { value: v } } => v == value,
            _ => false,
        },
        AstExprKind::Text { value } => match h.kind {
            HirExprKind::Literal { literal: HirLiteral::Text { value: v } } => v@ == value@,
            _ => false,
        },
        AstExprKind::Path { value } => match h.kind {
            HirExprKind::Path { value: v } => v@ == value@,
            _ => false,
        },
        AstExprKind::Tag { value } => match h.kind {
            HirExprKind::Tag { value: v } => v@ == value@,
            _ => false,
        },
        AstExprKind::Passed => h.kind is Passed,
        AstExprKind::Skip => h.kind is Skip,
        AstExprKind::Record { entries } => match h.kind {
            HirExprKind::Record { entries: he } => records_lower(he@, entries@),
            _ => false,
        },
        AstExprKind::List { items } => match h.kind {
            HirExprKind::List { items: hi } => exprs_lower(hi@, items@),
            _ => false,
        },
        AstExprKind::Block { bindings } => match h.kind {
            HirExprKind::Block { bindings: hb } => bindings_lower(hb@, bindings@),
            _ => false,
        },
        AstExprKind::When { arms } => match h.kind {
            HirExprKind::When { arms: ha } => arms_lower(ha@, arms@),
            _ => false,
        },
        AstExprKind::While { arms } => match h.kind {
            HirExprKind::While { arms: ha } => arms_lower(ha@, arms@),
            _ => false,
        },
        AstExprKind::Then { body } => match h.kind {
            HirExprKind::Then { body: hb } => lowers_to(*hb, *body),
            _ => false,
        },
        AstExprKind::Hold { state, body } => match h.kind {
            HirExprKind::Hold { state: hs, body: hb } => hs@ == state@ && lowers_to(*hb, *body),
            _ => false,
        },
        AstExprKind::Latest { branches } => match h.kind {
            HirExprKind::Latest { branches: hb } => exprs_lower(hb@, branches@),
            _ => false,
        },
        AstExprKind::Call { path, args } => call_kind_ok(h.kind, path@) && args_lower(call_args_of(h.kind), args@),
        AstExprKind::Pipeline { input, stages } => match h.kind {
            HirExprKind::Pipeline { input: hi, stages: hs } => lowers_to(*hi, *input) && exprs_lower(hs@, stages@),
            _ => false,
        },
        AstExprKind::Binary { op, left, right } => match h.kind {
            HirExprKind::Binary { op: ho, left: hl, right: hr } => ho == op && lowers_to(*hl, *left) && lowers_to(*hr, *right),
            _ => false,
        },
        AstExprKind::Raw => match h.kind {
            HirExprKind::Unsupported { reason } => reason@ == "raw syntax not yet lowered"@,
            _ => false,
        },
    }
}

/// Each expression of `h` lowers the one of `a` at its position.
pub open spec fn exprs_lower(h: Seq<HirExpr>, a: Seq<AstExpr>) -> bool
    decreases a, 1int,
{
    &&& h.len() == a.len()
    &&& a.len() > 0 ==> {
        proof {
            assert(decreases_to!(a => a[a.len() - 1]));
        }
        exprs_lower(h.drop_last(), a.drop_last()) && lowers_to(h[h.len() - 1], a[a.len() - 1])
    }
}

/// Each binding of `h` keeps the name and span of the one of `a` at its
/// position and lowers its value.
pub open spec fn bindings_lower(h: Seq<HirBinding>, a: Seq<AstBinding>) -> bool
    decreases a, 1int,
{
    &&& h.len() == a.len()
    &&& a.len() > 0 ==> {
        proof {
            assert(decreases_to!(a => a[a.len() - 1]));
        }
        &&& bindings_lower(h.drop_last(), a.drop_last())
        &&& h[h.len() - 1].name@ == a[a.len() - 1].name@
        &&& h[h.len() - 1].span == a[a.len() - 1].span
        &&& lowers_to(h[h.len() - 1].value, a[a.len() - 1].value)
    }
}

/// Each arm of `h` keeps the pattern and span of the one of `a` at its
/// position and lowers its value.
pub open spec fn arms_lower(h: Seq<HirWhenArm>, a: Seq<AstWhenArm>) -> bool
    decreases a, 1int,
{
    &&& h.len() == a.len()
    &&& a.len() > 0 ==> {
        proof {
            assert(decreases_to!(a => a[a.len() - 1]));
        }
        &&& arms_lower(h.drop_last(), a.drop_last())
        &&& h[h.len() - 1].pattern@ == a[a.len() - 1].pattern@
        &&& h[h.len() - 1].span == a[a.len() - 1].span
        &&& lowers_to(h[h.len() - 1].value, a[a.len() - 1].value)
    }
}

/// Each argument of `h` keeps the name and span of the one of `a` at its
/// position and lowers its value.
pub open spec fn args_lower(h: Seq<HirCallArg>, a: Seq<AstCallArg>) -> bool
    decreases a, 1int,
{
    &&& h.len() == a.len()
    &&& a.len() > 0 ==> {
        proof {
            assert(decreases_to!(a => a[a.len() - 1]));
        }
        &&& args_lower(h.drop_last(), a.drop_last())
        &&& h[h.len() - 1].name@ == a[a.len() - 1].name@
        &&& h[h.len() - 1].span == a[a.len() - 1].span
        &&& lowers_to(h[h.len() - 1].value, a[a.len() - 1].value)
    }
}

/// Whether `h` is the lowering of record `a`: the same key and span, its
/// value lowered, its children lowered one for one.
pub open spec fn record_lowers(h: HirRecord, a: AstRecord) -> bool
    decreases a, 2int,
{
    &&& h.key@ == a.key@
    &&& h.span == a.span
    &&& match a.value {
        Some(v) => match h.value {
            Some(hv) => lowers_to(hv, v),
            None => false,
        },
        None => h.value is None,
    }
    &&& {
        proof {
            assert(decreases_to!(a => a.children));
            assert(decreases_to!(a.children => a.children@));
        }
        records_lower(h.children@, a.children@)
    }
}

/// Each record of `h` lowers the one of `a` at its position.
pub open spec fn records_lower(h: Seq<HirRecord>, a: Seq<AstRecord>) -> bool
    decreases a, 1int,
{
    &&& h.len() == a.len()
    &&& a.len() > 0 ==> {
        proof {
            assert(decreases_to!(a => a[a.len() - 1]));
        }
        records_lower(h.drop_last(), a.drop_last()) && record_lowers(h[h.len() - 1], a[a.len() - 1])
    }
}

/// Whether `h` is the lowering of item `a`: the same variant; a record or
/// expression lowered; a function with the same name, parameters and
/// span and its body lowered.
pub open spec fn item_lowers(h: HirItem, a: AstItem) -> bool {
    match a {
        AstItem::Record(r) => match h {
            HirItem::Record(hr) => record_lowers(hr, r),
            _ => false,
        },
        AstItem::Function(f) => match h {
            HirItem::Function(hf) => hf.name@ == f.name@ && hf.span == f.span && hf.params@.len() == f.params@.len()
                && (forall|k: int| 0 <= k < f.params@.len() ==> (#[trigger] hf.params@[k])@ == f.params@[k]@)
                && lowers_to(hf.body, f.body),
            _ => false,
        },
        AstItem::Expression(e) => match h {
            HirItem::Expression(he) => lowers_to(he, e),
            _ => false,
        },
    }
}

/// Lowers an expression: the same span and text, with calls classified by
/// their path; the context gains the features the expression uses and a
/// diagnostic for each construct that cannot be carried.
pub fn lower_expr(expr: &AstExpr, ctx: &mut LowerContext) -> (r: HirExpr)
    requires
        old(ctx).flags@.len() == 22,
    ensures
        lowered(*old(ctx), *final(ctx), expr_features(*expr), expr_issue(*expr)),
        diags_added(*old(ctx), *final(ctx), expr_diags(*expr)),
        deps_added(*old(ctx), *final(ctx), hexpr_deps(r)),
        r.span == expr.span,
        r.raw@ == expr.raw@,
        lowers_to(r, *expr),
    decreases expr, 2int,
{
    let ghost c0 = *ctx;
    let kind = match &expr.kind {
        AstExprKind::Source => {
            ctx.insert(0);
            assert(expr_features(*expr) =~= set![0int]);
            HirExprKind::Source
        },
        AstExprKind::Number { value } => {
            assert(expr_features(*expr) =~= Set::<int>::empty());
            HirExprKind::Literal { literal: HirLiteral::Number { value: *value } }
        },
        AstExprKind::Bool { value } => {
            assert(expr_features(*expr) =~= Set::<int>::empty());
            HirExprKind::Literal { literal: HirLiteral::Bool { value: *value } }
        },
        AstExprKind::Text { value } => {
            assert(expr_features(*expr) =~= Set::<int>::empty());
            HirExprKind::Literal { literal: HirLiteral::Text { value: value.clone() } }
        },
        AstExprKind::Path { value } => {
            assert(expr_features(*expr) =~= Set::<int>::empty());
            HirExprKind::Path { value: value.clone() }
        },
        AstExprKind::Tag { value } => {
            assert(expr_features(*expr) =~= Set::<int>::empty());
            HirExprKind::Tag { value: value.clone() }
        },
        AstExprKind::Passed => {
            assert(expr_features(*expr) =~= Set::<int>::empty());
            HirExprKind::Passed
        },
        AstExprKind::Skip => {
            assert(expr_features(*expr) =~= Set::<int>::empty());
            HirExprKind::Skip
        },
        AstExprKind::Record { entries } => {
            let entries = lower_records(entries, ctx);
            assert(expr_features(*expr) =~= Set::<int>::empty() + records_features(expr.kind->entries@));
            HirExprKind::Record { entries }
        },
        AstExprKind::List { items } => {
            ctx.insert(7);
            let ghost c1 = *ctx;
            let items = lower_exprs(items, ctx);
            proof {
                lemma_lowered_trans(c0, c1, *ctx, set![7int], exprs_features(expr.kind->items@), false, exprs_issue(expr.kind->items@));
                assert(expr_features(*expr) =~= set![7int] + exprs_features(expr.kind->items@));
            }
            HirExprKind::List { items }
        },
        AstExprKind::Block { bindings } => {
            ctx.insert(6);
            let ghost c1 = *ctx;
            let bindings = lower_bindings(bindings, ctx);
            proof {
                lemma_lowered_trans(c0, c1, *ctx, set![6int], bindings_features(expr.kind->bindings@), false, bindings_issue(expr.kind->bindings@));
                assert(expr_features(*expr) =~= set![6int] + bindings_features(expr.kind->bindings@));
            }
            HirExprKind::Block { bindings }
        },
        AstExprKind::When { arms } => {
            ctx.insert(3);
            let ghost c1 = *ctx;
            let arms = lower_arms(arms, ctx);
            proof {
                lemma_lowered_trans(c0, c1, *ctx, set![3int], arms_features(expr.kind->When_arms@), false, arms_issue(expr.kind->When_arms@));
                assert(expr_features(*expr) =~= set![3int] + arms_features(expr.kind->When_arms@));
            }
            HirExprKind::When { arms }
        },
        AstExprKind::While { arms } => {
            ctx.insert(4);
            let ghost c1 = *ctx;
            let arms = lower_arms(arms, ctx);
            proof {
                lemma_lowered_trans(c0, c1, *ctx, set![4int], arms_features(expr.kind->While_arms@), false, arms_issue(expr.kind->While_arms@));
                assert(expr_features(*expr) =~= set![4int] + arms_features(expr.kind->While_arms@));
            }
            HirExprKind::While { arms }
        },
        AstExprKind::Then { body } => {
            ctx.insert(2);
            let ghost c1 = *ctx;
            let b = lower_expr(body, ctx);
            proof {
                lemma_lowered_trans(c0, c1, *ctx, set![2int], expr_features(**body), false, expr_issue(**body));
                assert(expr_features(*expr) =~= set![2int] + expr_features(**body));
            }
            HirExprKind::Then { body: Box::new(b) }
        },
        AstExprKind::Hold { state, body } => {
            ctx.insert(1);
            let ghost c1 = *ctx;
            let b = lower_expr(body, ctx);
            proof {
                lemma_lowered_trans(c0, c1, *ctx, set![1int], expr_features(**body), false, expr_issue(**body));
                assert(expr_features(*expr) =~= set![1int] + expr_features(**body));
            }
            HirExprKind::Hold { state: state.clone(), body: Box::new(b) }
        },
        AstExprKind::Latest { branches } => {
            ctx.insert(5);
            let ghost c1 = *ctx;
            let branches = lower_exprs(branches, ctx);
            proof {
                lemma_lowered_trans(c0, c1, *ctx, set![5int], exprs_features(expr.kind->branches@), false, exprs_issue(expr.kind->branches@));
                assert(expr_features(*expr) =~= set![5int] + exprs_features(expr.kind->branches@));
            }
            HirExprKind::Latest { branches }
        },
        AstExprKind::Call { path, args } => {
            let k = lower_call(path, args, expr.span, ctx);
            proof {
                assert(expr_features(*expr) =~= call_features(path@) + args_features(args@));
            }
            k
        },
        AstExprKind::Pipeline { input, stages } => {
            ctx.insert(19);
            let ghost c1 = *ctx;
            let i = lower_expr(input, ctx);
            let ghost c2 = *ctx;
            let st = lower_exprs(stages, ctx);
            proof {
                lemma_lowered_trans(c0, c1, c2, set![19int], expr_features(**input), false, expr_issue(**input));
                lemma_lowered_trans(c0, c2, *ctx, set![19int] + expr_features(**input), exprs_features(stages@), expr_issue(**input), exprs_issue(stages@));
                assert(expr_features(*expr) =~= set![19int] + expr_features(**input) + exprs_features(stages@));
            }
            HirExprKind::Pipeline { input: Box::new(i), stages: st }
        },
        AstExprKind::Binary { op, left, right } => {
            ctx.insert(20);
            let ghost c1 = *ctx;
            let l = lower_expr(left, ctx);
            let ghost c2 = *ctx;
            let rr = lower_expr(right, ctx);
            proof {
                lemma_lowered_trans(c0, c1, c2, set![20int], expr_features(**left), false, expr_issue(**left));
                lemma_lowered_trans(c0, c2, *ctx, set![20int] + expr_features(**left), expr_features(**right), expr_issue(**left), expr_issue(**right));
                assert(expr_features(*expr) =~= set![20int] + expr_features(**left) + expr_features(**right));
            }
            HirExprKind::Binary { op: *op, left: Box::new(l), right: Box::new(rr) }
        },
        AstExprKind::Raw => {
            let msg = message("expression kept as raw syntax: ", &expr.raw, false);
            ctx.report(expr.span, msg);
            assert(expr_features(*expr) =~= Set::<int>::empty());
            HirExprKind::Unsupported { reason: "raw syntax not yet lowered".to_owned() }
        },
    };
    assert(diag_view(ctx.diagnostics@) =~= diag_view(c0.diagnostics@) + expr_diags(*expr));
    let r = HirExpr { kind, span: expr.span, raw: expr.raw.clone() };
    assert(dep_view(ctx.dependencies@) =~= dep_view(c0.dependencies@) + hexpr_deps(r));
    r
}

/// Lowers each expression, in order.
pub fn lower_exprs(items: &Vec<AstExpr>, ctx: &mut LowerContext) -> (r: Vec<HirExpr>)
    requires
        old(ctx).flags@.len() == 22,
    ensures
        lowered(*old(ctx), *final(ctx), exprs_features(items@), exprs_issue(items@)),
        diags_added(*old(ctx), *final(ctx), exprs_diags(items@)),
        deps_added(*old(ctx), *final(ctx), hexprs_deps(r@)),
        r@.len() == items@.len(),
        exprs_lower(r@, items@),
    decreases items@, 1int,
{
    let ghost c0 = *ctx;
    let mut out: Vec<HirExpr> = Vec::new();
    let mut i: usize = 0;
    assert(dep_view(ctx.dependencies@) =~= dep_view(c0.dependencies@) + hexprs_deps(out@));
    assert(exprs_lower(out@, items@.take(0)));
    proof {
        assert(items@.take(0) =~= Seq::<AstExpr>::empty());
        lemma_lowered_refl(c0);
        assert(exprs_features(items@.take(0)) =~= Set::<int>::empty());
    }
    assert(diag_view(ctx.diagnostics@) =~= diag_view(c0.diagnostics@) + exprs_diags(items@.take(0)));
    while i < items.len()
        invariant
            i <= items@.len(),
            out@.len() == i,
            exprs_lower(out@, items@.take(i as int)),
            c0.flags@.len() == 22,
            lowered(c0, *ctx, exprs_features(items@.take(i as int)), exprs_issue(items@.take(i as int))),
            diags_added(c0, *ctx, exprs_diags(items@.take(i as int))),
            deps_added(c0, *ctx, hexprs_deps(out@)),
        decreases items.len() - i,
    {
        let ghost c1 = *ctx;
        proof {
            assert(decreases_to!(items@ => items@[i as int]));
        }
        let ghost o0 = out@;
        out.push(lower_expr(&items[i], ctx));
        proof {
            assert(out@.drop_last() =~= o0);
            assert(dep_view(ctx.dependencies@) =~= dep_view(c0.dependencies@) + hexprs_deps(out@));
            assert(items@.take(i + 1).drop_last() =~= items@.take(i as int));
            assert(items@.take(i + 1)[i as int] == items@[i as int]);
            assert(exprs_lower(out@, items@.take(i + 1)));
        }
        proof {
            lemma_lowered_trans(c0, c1, *ctx, exprs_features(items@.take(i as int)), expr_features(items@[i as int]), exprs_issue(items@.take(i as int)), expr_issue(items@[i as int]));
            let t = items@.take(i + 1);
            assert(t.drop_last() =~= items@.take(i as int));
            assert(t[t.len() - 1] == items@[i as int]);
            assert(exprs_features(t) =~= exprs_features(items@.take(i as int)) + expr_features(items@[i as int]));
        }
        assert(diag_view(ctx.diagnostics@) =~= diag_view(c0.diagnostics@) + exprs_diags(items@.take(i + 1)));
        i = i + 1;
    }
    proof {
        assert(items@.take(items@.len() as int) =~= items@);
    }
    assert(exprs_lower(out@, items@));
    out
}

/// Lowers each binding, in order.
pub fn lower_bindings(items: &Vec<AstBinding>, ctx: &mut LowerContext) -> (r: Vec<HirBinding>)
    requires
        old(ctx).flags@.len() == 22,
    ensures
        lowered(*old(ctx), *final(ctx), bindings_features(items@), bindings_issue(items@)),
        diags_added(*old(ctx), *final(ctx), bindings_diags(items@)),
        deps_added(*old(ctx), *final(ctx), hbindings_deps(r@)),
        r@.len() == items@.len(),
        bindings_lower(r@, items@),
    decreases items@, 1int,
{
    let ghost c0 = *ctx;
    let mut out: Vec<HirBinding> = Vec::new();
    let mut i: usize = 0;
    assert(dep_view(ctx.dependencies@) =~= dep_view(c0.dependencies@) + hbindings_deps(out@));
    assert(bindings_lower(out@, items@.take(0)));
    proof {
        assert(items@.take(0) =~= Seq::<AstBinding>::empty());
        assert(bindings_features(items@.take(0)) =~= Set::<int>::empty());
    }
    assert(diag_view(ctx.diagnostics@) =~= diag_view(c0.diagnostics@) + bindings_diags(items@.take(0)));
    while i < items.len()
        invariant
            i <= items@.len(),
            out@.len() == i,
            bindings_lower(out@, items@.take(i as int)),
            c0.flags@.len() == 22,
            lowered(c0, *ctx, bindings_features(items@.take(i as int)), bindings_issue(items@.take(i as int))),
            diags_added(c0, *ctx, bindings_diags(items@.take(i as int))),
            deps_added(c0, *ctx, hbindings_deps(out@)),
        decreases items.len() - i,
    {
        let ghost c1 = *ctx;
        proof {
            assert(decreases_to!(items@ => items@[i as int]));
            assert(decreases_to!(items@[i as int] => items@[i as int].value));
        }
        let value = lower_expr(&items[i].value, ctx);
        let ghost o0 = out@;
        out.push(HirBinding { name: items[i].name.clone(), value, span: items[i].span });
        proof {
            assert(out@.drop_last() =~= o0);
            assert(dep_view(ctx.dependencies@) =~= dep_view(c0.dependencies@) + hbindings_deps(out@));
            assert(items@.take(i + 1).drop_last() =~= items@.take(i as int));
            assert(items@.take(i + 1)[i as int] == items@[i as int]);
            assert(bindings_lower(out@, items@.take(i + 1)));
        }
        proof {
            lemma_lowered_trans(c0, c1, *ctx, bindings_features(items@.take(i as int)), expr_features(items@[i as int].value), bindings_issue(items@.take(i as int)), expr_issue(items@[i as int].value));
            let t = items@.take(i + 1);
            assert(t.drop_last() =~= items@.take(i as int));
            assert(t[t.len() - 1] == items@[i as int]);
            assert(bindings_features(t) =~= bindings_features(items@.take(i as int)) + expr_features(items@[i as int].value));
        }
        assert(diag_view(ctx.diagnostics@) =~= diag_view(c0.diagnostics@) + bindings_diags(items@.take(i + 1)));
        i = i + 1;
    }
    proof {
        assert(items@.take(items@.len() as int) =~= items@);
    }
    assert(bindings_lower(out@, items@));
    out
}

/// Lowers each arm, in order.
pub fn lower_arms(items: &Vec<AstWhenArm>, ctx: &mut LowerContext) -> (r: Vec<HirWhenArm>)
    requires
        old(ctx).flags@.len() == 22,
    ensures
        lowered(*old(ctx), *final(ctx), arms_features(items@), arms_issue(items@)),
        diags_added(*old(ctx), *final(ctx), arms_diags(items@)),
        deps_added(*old(ctx), *final(ctx), harms_deps(r@)),
        r@.len() == items@.len(),
        arms_lower(r@, items@),
    decreases items@, 1int,
{
    let ghost c0 = *ctx;
    let mut out: Vec<HirWhenArm> = Vec::new();
    let mut i: usize = 0;
    assert(dep_view(ctx.dependencies@) =~= dep_view(c0.dependencies@) + harms_deps(out@));
    assert(arms_lower(out@, items@.take(0)));
    proof {
        assert(items@.take(0) =~= Seq::<AstWhenArm>::empty());
        assert(arms_features(items@.take(0)) =~= Set::<int>::empty());
    }
    assert(diag_view(ctx.diagnostics@) =~= diag_view(c0.diagnostics@) + arms_diags(items@.take(0)));
    while i < items.len()
        invariant
            i <= items@.len(),
            out@.len() == i,
            arms_lower(out@, items@.take(i as int)),
            c0.flags@.len() == 22,
            lowered(c0, *ctx, arms_features(items@.take(i as int)), arms_issue(items@.take(i as int))),
            diags_added(c0, *ctx, arms_diags(items@.take(i as int))),
            deps_added(c0, *ctx, harms_deps(out@)),
        decreases items.len() - i,
    {
        let ghost c1 = *ctx;
        proof {
            assert(decreases_to!(items@ => items@[i as int]));
            assert(decreases_to!(items@[i as int] => items@[i as int].value));
        }
        let value = lower_expr(&items[i].value, ctx);
        let ghost o0 = out@;
        out.push(HirWhenArm { pattern: items[i].pattern.clone(), value, span: items[i].span });
        proof {
            assert(out@.drop_last() =~= o0);
            assert(dep_view(ctx.dependencies@) =~= dep_view(c0.dependencies@) + harms_deps(out@));
            assert(items@.take(i + 1).drop_last() =~= items@.take(i as int));
            assert(items@.take(i + 1)[i as int] == items@[i as int]);
            assert(arms_lower(out@, items@.take(i + 1)));
        }
        proof {
            lemma_lowered_trans(c0, c1, *ctx, arms_features(items@.take(i as int)), expr_features(items@[i as int].value), arms_issue(items@.take(i as int)), expr_issue(items@[i as int].value));
            let t = items@.take(i + 1);
            assert(t.drop_last() =~= items@.take(i as int));
            assert(t[t.len() - 1] == items@[i as int]);
            assert(arms_features(t) =~= arms_features(items@.take(i as int)) + expr_features(items@[i as int].value));
        }
        assert(diag_view(ctx.diagnostics@) =~= diag_view(c0.diagnostics@) + arms_diags(items@.take(i + 1)));
        i = i + 1;
    }
    proof {
        assert(items@.take(items@.len() as int) =~= items@);
    }
    assert(arms_lower(out@, items@));
    out
}

/// Lowers each call argument, in order.
pub fn lower_args(items: &Vec<AstCallArg>, ctx: &mut LowerContext) -> (r: Vec<HirCallArg>)
    requires
        old(ctx).flags@.len() == 22,
    ensures
        lowered(*old(ctx), *final(ctx), args_features(items@), args_issue(items@)),
        diags_added(*old(ctx), *final(ctx), args_diags(items@)),
        deps_added(*old(ctx), *final(ctx), hargs_deps(r@)),
        r@.len() == items@.len(),
        args_lower(r@, items@),
    decreases items@, 1int,
{
    let ghost c0 = *ctx;
    let mut out: Vec<HirCallArg> = Vec::new();
    let mut i: usize = 0;
    assert(dep_view(ctx.dependencies@) =~= dep_view(c0.dependencies@) + hargs_deps(out@));
    assert(args_lower(out@, items@.take(0)));
    proof {
        assert(items@.take(0) =~= Seq::<AstCallArg>::empty());
        assert(args_features(items@.take(0)) =~= Set::<int>::empty());
    }
    assert(diag_view(ctx.diagnostics@) =~= diag_view(c0.diagnostics@) + args_diags(items@.take(0)));
    while i < items.len()
        invariant
            i <= items@.len(),
            out@.len() == i,
            args_lower(out@, items@.take(i as int)),
            c0.flags@.len() == 22,
            lowered(c0, *ctx, args_features(items@.take(i as int)), args_issue(items@.take(i as int))),
            diags_added(c0, *ctx, args_diags(items@.take(i as int))),
            deps_added(c0, *ctx, hargs_deps(out@)),
        decreases items.len() - i,
    {
        let ghost c1 = *ctx;
        proof {
            assert(decreases_to!(items@ => items@[i as int]));
            assert(decreases_to!(items@[i as int] => items@[i as int].value));
        }
        let value = lower_expr(&items[i].value, ctx);
        let ghost o0 = out@;
        out.push(HirCallArg { name: items[i].name.clone(), value, span: items[i].span });
        proof {
            assert(out@.drop_last() =~= o0);
            assert(dep_view(ctx.dependencies@) =~= dep_view(c0.dependencies@) + hargs_deps(out@));
            assert(items@.take(i + 1).drop_last() =~= items@.take(i as int));
            assert(items@.take(i + 1)[i as int] == items@[i as int]);
            assert(args_lower(out@, items@.take(i + 1)));
        }
        proof {
            lemma_lowered_trans(c0, c1, *ctx, args_features(items@.take(i as int)), expr_features(items@[i as int].value), args_issue(items@.take(i as int)), expr_issue(items@[i as int].value));
            let t = items@.take(i + 1);
            assert(t.drop_last() =~= items@.take(i as int));
            assert(t[t.len() - 1] == items@[i as int]);
            assert(args_features(t) =~= args_features(items@.take(i as int)) + expr_features(items@[i as int].value));
        }
        assert(diag_view(ctx.diagnostics@) =~= diag_view(c0.diagnostics@) + args_diags(items@.take(i + 1)));
        i = i + 1;
    }
    proof {
        assert(items@.take(items@.len() as int) =~= items@);
    }
    assert(args_lower(out@, items@));
    out
}

/// Lowers each record, in order.
pub fn lower_records(items: &Vec<AstRecord>, ctx: &mut LowerContext) -> (r: Vec<HirRecord>)
    requires
        old(ctx).flags@.len() == 22,
    ensures
        lowered(*old(ctx), *final(ctx), records_features(items@), records_issue(items@)),
        diags_added(*old(ctx), *final(ctx), records_diags(items@)),
        deps_added(*old(ctx), *final(ctx), hrecords_deps(r@)),
        r@.len() == items@.len(),
        records_lower(r@, items@),
    decreases items@, 1int,
{
    let ghost c0 = *ctx;
    let mut out: Vec<HirRecord> = Vec::new();
    let mut i: usize = 0;
    assert(dep_view(ctx.dependencies@) =~= dep_view(c0.dependencies@) + hrecords_deps(out@));
    assert(records_lower(out@, items@.take(0)));
    proof {
        assert(items@.take(0) =~= Seq::<AstRecord>::empty());
        assert(records_features(items@.take(0)) =~= Set::<int>::empty());
    }
    assert(diag_view(ctx.diagnostics@) =~= diag_view(c0.diagnostics@) + records_diags(items@.take(0)));
    while i < items.len()
        invariant
            i <= items@.len(),
            out@.len() == i,
            records_lower(out@, items@.take(i as int)),
            c0.flags@.len() == 22,
            lowered(c0, *ctx, records_features(items@.take(i as int)), records_issue(items@.take(i as int))),
            diags_added(c0, *ctx, records_diags(items@.take(i as int))),
            deps_added(c0, *ctx, hrecords_deps(out@)),
        decreases items.len() - i,
    {
        let ghost c1 = *ctx;
        proof {
            assert(decreases_to!(items@ => items@[i as int]));
        }
        let ghost o0 = out@;
        out.push(lower_record(&items[i], ctx));
        proof {
            assert(out@.drop_last() =~= o0);
            assert(dep_view(ctx.dependencies@) =~= dep_view(c0.dependencies@) + hrecords_deps(out@));
            assert(items@.take(i + 1).drop_last() =~= items@.take(i as int));
            assert(items@.take(i + 1)[i as int] == items@[i as int]);
            assert(records_lower(out@, items@.take(i + 1)));
        }
        proof {
            lemma_lowered_trans(c0, c1, *ctx, records_features(items@.take(i as int)), record_features(items@[i as int]), records_issue(items@.take(i as int)), record_issue(items@[i as int]));
            let t = items@.take(i + 1);
            assert(t.drop_last() =~= items@.take(i as int));
            assert(t[t.len() - 1] == items@[i as int]);
            assert(records_features(t) =~= records_features(items@.take(i as int)) + record_features(items@[i as int]));
        }
        assert(diag_view(ctx.diagnostics@) =~= diag_view(c0.diagnostics@) + records_diags(items@.take(i + 1)));
        i = i + 1;
    }
    proof {
        assert(items@.take(items@.len() as int) =~= items@);
    }
    assert(records_lower(out@, items@));
    out
}

/// Lowers a record: a `document` or `view` record marks the module as
/// rendering, and the record's dependencies on the paths its value reads
/// are noted.
pub fn lower_record(record: &AstRecord, ctx: &mut LowerContext) -> (r: HirRecord)
    requires
        old(ctx).flags@.len() == 22,
    ensures
        lowered(*old(ctx), *final(ctx), record_features(*record), record_issue(*record)),
        diags_added(*old(ctx), *final(ctx), record_diags(*record)),
        deps_added(*old(ctx), *final(ctx), hrecord_deps(r)),
        r.key@ == record.key@,
        r.span == record.span,
        r.value is Some <==> record.value is Some,
        r.children@.len() == record.children@.len(),
        record_lowers(r, *record),
    decreases record, 2int,
{
    let ghost c0 = *ctx;
    let render = crate::text::str_eq(&record.key, "document") || crate::text::str_eq(&record.key, "view");
    let ghost rset: Set<int> = if render { set![21int] } else { Set::empty() };
    if render {
        ctx.insert(21);
    }
    let ghost c1 = *ctx;
    assert(lowered(c0, c1, rset, false));
    let value = match &record.value {
        Some(e) => {
            let v = lower_expr(e, ctx);
            collect_record_dependency(&record.key, &v, ctx);
            Some(v)
        },
        None => None,
    };
    let ghost c2 = *ctx;
    let ghost vset: Set<int> = match &record.value { Some(v) => expr_features(*v), None => Set::empty() };
    let ghost vissue: bool = match &record.value { Some(v) => expr_issue(*v), None => false };
    assert(lowered(c1, c2, vset, vissue));
    proof {
        assert(decreases_to!(*record => record.children));
        assert(decreases_to!(record.children => record.children@));
    }
    let children = lower_records(&record.children, ctx);
    proof {
        lemma_lowered_trans(c0, c1, c2, rset, vset, false, vissue);
        lemma_lowered_trans(c0, c2, *ctx, rset + vset, records_features(record.children@), vissue, records_issue(record.children@));
        assert(record_features(*record) =~= rset + vset + records_features(record.children@));
    }
    assert(diag_view(ctx.diagnostics@) =~= diag_view(c0.diagnostics@) + record_diags(*record));
    let r = HirRecord { key: record.key.clone(), value, span: record.span, children };
    assert(dep_view(ctx.dependencies@) =~= dep_view(c0.dependencies@) + hrecord_deps(r));
    r
}

/// Lowers a call: `Element/` and `Document/` calls go to the host, known
/// `List/` operations become list calls, and everything else is a function
/// call.  An unknown `List/` operation, or a `Math/` operation other than
/// `add` and `sum`, is reported.
pub fn lower_call(path: &String, args: &Vec<AstCallArg>, span: Span, ctx: &mut LowerContext) -> (r: HirExprKind)
    requires
        old(ctx).flags@.len() == 22,
    ensures
        lowered(*old(ctx), *final(ctx), call_features(path@) + args_features(args@), call_issue(path@) || args_issue(args@)),
        diags_added(*old(ctx), *final(ctx), args_diags(args@) + call_diag(path@, span)),
        deps_added(*old(ctx), *final(ctx), hargs_deps(call_args_of(r))),
        call_kind_ok(r, path@),
        args_lower(call_args_of(r), args@),
    decreases args@, 2int,
{
    let ghost c0 = *ctx;
    let lowered_args = lower_args(args, ctx);
    let ghost c1 = *ctx;
    let p = chars_of_string(path);
    let element = chars_of("Element/");
    let document = chars_of("Document/");
    let list = chars_of("List/");
    let math = chars_of("Math/");
    let kind = if starts_with(&p, &element) {
        ctx.insert(14);
        assert(call_features(path@) =~= set![14int]);
        HirExprKind::HostCall { path: path.clone(), args: lowered_args }
    } else if starts_with(&p, &document) {
        ctx.insert(15);
        assert(call_features(path@) =~= set![15int]);
        HirExprKind::HostCall { path: path.clone(), args: lowered_args }
    } else if starts_with(&p, &list) {
        let op = if is_lit(&p, "List/append") {
            ctx.insert(8);
            assert(call_features(path@) =~= set![8int]);
            HirListOp::Append
        } else if is_lit(&p, "List/remove") {
            ctx.insert(9);
            assert(call_features(path@) =~= set![9int]);
            HirListOp::Remove
        } else if is_lit(&p, "List/retain") {
            ctx.insert(10);
            assert(call_features(path@) =~= set![10int]);
            HirListOp::Retain
        } else if is_lit(&p, "List/map") {
            ctx.insert(11);
            assert(call_features(path@) =~= set![11int]);
            HirListOp::MapItems
        } else if is_lit(&p, "List/count") {
            ctx.insert(12);
            assert(call_features(path@) =~= set![12int]);
            HirListOp::Count
        } else if is_lit(&p, "List/range") {
            ctx.insert(13);
            assert(call_features(path@) =~= set![13int]);
            HirListOp::Range
        } else {
            let msg = message("unsupported List operation ", path, true);
            ctx.report(span, msg);
            assert(call_features(path@) =~= Set::<int>::empty());
            HirListOp::Unknown { path: path.clone() }
        };
        HirExprKind::ListCall { op, args: lowered_args }
    } else {
        if starts_with(&p, &math) {
            ctx.insert(16);
            let ghost c2 = *ctx;
            if !(is_lit(&p, "Math/add") || is_lit(&p, "Math/sum")) {
                let msg = message("unsupported Math operation ", path, true);
                ctx.report(span, msg);
                proof {
                    lemma_lowered_trans(c1, c2, *ctx, set![16int], Set::empty(), false, true);
                }
            }
            assert(call_features(path@) =~= set![16int]);
        } else {
            ctx.insert(18);
            assert(call_features(path@) =~= set![18int]);
        }
        HirExprKind::FunctionCall { path: path.clone(), args: lowered_args }
    };
    assert(diag_view(ctx.diagnostics@) =~= diag_view(c0.diagnostics@) + (args_diags(args@) + call_diag(path@, span)));
    assert(dep_view(ctx.dependencies@) =~= dep_view(c0.dependencies@) + hargs_deps(call_args_of(kind)));
    proof {
        lemma_lowered_trans(c0, c1, *ctx, args_features(args@), call_features(path@), args_issue(args@), call_issue(path@));
        assert(args_features(args@) + call_features(path@) =~= call_features(path@) + args_features(args@));
    }
    kind
}

/// Notes that the record `key` depends on each path its value reads.
pub fn collect_record_dependency(key: &String, value: &HirExpr, ctx: &mut LowerContext)
    ensures
        final(ctx).flags == old(ctx).flags,
        final(ctx).diagnostics == old(ctx).diagnostics,
        final(ctx).dependencies@.len() >= old(ctx).dependencies@.len(),
        forall|k: int|
            old(ctx).dependencies@.len() <= k < final(ctx).dependencies@.len() ==> (#[trigger] final(ctx).dependencies@[k]).from@ == key@
                && final(ctx).dependencies@[k].span == value.span,
        final(ctx).dependencies@.len() == old(ctx).dependencies@.len() + expr_paths(*value).len(),
        final(ctx).dependencies@.take(old(ctx).dependencies@.len() as int) == old(ctx).dependencies@,
        forall|k: int|
            0 <= k < expr_paths(*value).len() ==> (#[trigger] final(ctx).dependencies@[old(ctx).dependencies@.len() + k]).to@
                == expr_paths(*value)[k],
        deps_added(*old(ctx), *final(ctx), own_deps(key@, *value)),
{
    let mut paths: Vec<String> = Vec::new();
    collect_paths(value, &mut paths);
    assert(views(paths@) =~= expr_paths(*value));
    let ghost d0 = ctx.dependencies@.len();
    let mut i: usize = 0;
    while i < paths.len()
        invariant
            i <= paths@.len(),
            ctx.flags == old(ctx).flags,
            ctx.diagnostics == old(ctx).diagnostics,
            ctx.dependencies@.len() >= old(ctx).dependencies@.len(),
            forall|k: int|
                old(ctx).dependencies@.len() <= k < ctx.dependencies@.len() ==> (#[trigger] ctx.dependencies@[k]).from@ == key@
                    && ctx.dependencies@[k].span == value.span,
            d0 == old(ctx).dependencies@.len(),
            ctx.dependencies@.len() == d0 + i,
            ctx.dependencies@.take(d0 as int) == old(ctx).dependencies@,
            views(paths@) == expr_paths(*value),
            forall|k: int| 0 <= k < i ==> (#[trigger] ctx.dependencies@[d0 + k]).to@ == paths@[k]@,
        decreases paths.len() - i,
    {
        ctx.dependencies.push(HirDependency { from: key.clone(), to: paths[i].clone(), span: value.span });
        assert(ctx.dependencies@.take(d0 as int) =~= old(ctx).dependencies@);
        i = i + 1;
    }
    assert forall|k: int| 0 <= k < expr_paths(*value).len() implies (#[trigger] ctx.dependencies@[d0 + k]).to@
        == expr_paths(*value)[k] by {
        assert(views(paths@)[k] == paths@[k]@);
    }
    proof {
        let n0 = old(ctx).dependencies@.len();
        assert forall|k: int| 0 <= k < n0 implies ctx.dependencies@[k] == old(ctx).dependencies@[k] by {
            assert(ctx.dependencies@.take(n0 as int)[k] == ctx.dependencies@[k]);
        }
        let ps = expr_paths(*value);
        assert(ctx.dependencies@.len() == n0 + ps.len());
        assert forall|k: int| 0 <= k < ps.len() implies #[trigger] dep_view(ctx.dependencies@)[n0 + k] == own_deps(key@, *value)[k] by {
            assert(ctx.dependencies@[n0 + k].to@ == ps[k]);
            assert(ctx.dependencies@[n0 + k].from@ == key@);
        }
        assert forall|k: int| 0 <= k < n0 implies #[trigger] dep_view(ctx.dependencies@)[k] == dep_view(old(ctx).dependencies@)[k] by {
        }
        assert(dep_view(ctx.dependencies@) =~= dep_view(old(ctx).dependencies@) + own_deps(key@, *value)) by {
            assert forall|k: int| 0 <= k < dep_view(ctx.dependencies@).len() implies dep_view(ctx.dependencies@)[k]
                == (dep_view(old(ctx).dependencies@) + own_deps(key@, *value))[k] by {
                if k >= n0 {
                    assert(dep_view(ctx.dependencies@)[n0 + (k - n0)] == own_deps(key@, *value)[k - n0]);
                }
            }
        }
    }
}

/// Appends every path the expression reads, in order.  Inside a record
/// literal, the values of the entries and of their direct children count.
#[verifier::loop_isolation(false)]
pub fn collect_paths(expr: &HirExpr, paths: &mut Vec<String>)
    ensures
        final(paths)@.len() >= old(paths)@.len(),
        final(paths)@.subrange(0, old(paths)@.len() as int) == old(paths)@,
        views(final(paths)@) == views(old(paths)@) + expr_paths(*expr),
    decreases expr,
{
    let ghost p0 = paths@;
    match &expr.kind {
        HirExprKind::Path { value } => {
            let v = value.clone();
            proof {
                lemma_views_push(paths@, v);
            }
            paths.push(v);
        },
        HirExprKind::Record { entries } => {
            let mut i: usize = 0;
            assert(entries@.take(0) =~= Seq::<HirRecord>::empty());
            assert(views(paths@) =~= views(p0) + entry_paths(entries@.take(0)));
            while i < entries.len()
                invariant
                    i <= entries@.len(),
                    paths@.len() >= p0.len(),
                    paths@.subrange(0, p0.len() as int) == p0,
                    views(paths@) == views(p0) + entry_paths(entries@.take(i as int)),
                decreases entries.len() - i,
            {
                proof {
                    assert(decreases_to!(expr.kind->entries@ => expr.kind->entries@[i as int]));
                }
                let ghost before = views(paths@);
                if let Some(v) = &entries[i].value {
                    collect_paths(v, paths);
                }
                assert(views(paths@) =~= before + opt_value_paths(entries@[i as int].value));
                let ghost mid = views(paths@);
                let children = &entries[i].children;
                let mut j: usize = 0;
                assert(children@.take(0) =~= Seq::<HirRecord>::empty());
                assert(views(paths@) =~= mid + child_value_paths(children@.take(0)));
                while j < children.len()
                    invariant
                        j <= children@.len(),
                        paths@.len() >= p0.len(),
                        paths@.subrange(0, p0.len() as int) == p0,
                        views(paths@) == mid + child_value_paths(children@.take(j as int)),
                    decreases children.len() - j,
                {
                    proof {
                        assert(decreases_to!(expr.kind->entries@[i as int] => expr.kind->entries@[i as int].children));
                        assert(decreases_to!(expr.kind->entries@[i as int].children => expr.kind->entries@[i as int].children@));
                        assert(decreases_to!(expr.kind->entries@[i as int].children@ => expr.kind->entries@[i as int].children@[j as int]));
                    }
                    let ghost cb = views(paths@);
                    if let Some(v) = &children[j].value {
                        collect_paths(v, paths);
                    }
                    assert(views(paths@) =~= cb + opt_value_paths(children@[j as int].value));
                    assert(children@.take(j + 1).drop_last() =~= children@.take(j as int));
                    assert(views(paths@) =~= mid + child_value_paths(children@.take(j + 1)));
                    j = j + 1;
                }
                assert(children@.take(children@.len() as int) =~= children@);
                assert(entries@.take(i + 1).drop_last() =~= entries@.take(i as int));
                assert(views(paths@) =~= views(p0) + entry_paths(entries@.take(i + 1)));
                i = i + 1;
            }
            assert(entries@.take(entries@.len() as int) =~= entries@);
        },
        HirExprKind::List { items } => collect_paths_all(items, paths),
        HirExprKind::Latest { branches } => collect_paths_all(branches, paths),
        HirExprKind::Block { bindings } => {
            let mut i: usize = 0;
            assert(bindings@.take(0) =~= Seq::<HirBinding>::empty());
            assert(views(paths@) =~= views(p0) + bindings_paths(bindings@.take(0)));
            while i < bindings.len()
                invariant
                    i <= bindings@.len(),
                    paths@.len() >= p0.len(),
                    paths@.subrange(0, p0.len() as int) == p0,
                    views(paths@) == views(p0) + bindings_paths(bindings@.take(i as int)),
                decreases bindings.len() - i,
            {
                proof {
                    assert(decreases_to!(expr.kind->bindings@ => expr.kind->bindings@[i as int]));
                }
                collect_paths(&bindings[i].value, paths);
                assert(bindings@.take(i + 1).drop_last() =~= bindings@.take(i as int));
                assert(views(paths@) =~= views(p0) + bindings_paths(bindings@.take(i + 1)));
                i = i + 1;
            }
            assert(bindings@.take(bindings@.len() as int) =~= bindings@);
        },
        HirExprKind::When { arms } => collect_paths_arms(arms, paths),
        HirExprKind::While { arms } => collect_paths_arms(arms, paths),
        HirExprKind::Then { body } => collect_paths(body, paths),
        HirExprKind::Hold { body, .. } => collect_paths(body, paths),
        HirExprKind::HostCall { args, .. } => collect_paths_args(args, paths),
        HirExprKind::ListCall { args, .. } => collect_paths_args(args, paths),
        HirExprKind::FunctionCall { args, .. } => collect_paths_args(args, paths),
        HirExprKind::Pipeline { input, stages } => {
            collect_paths(input, paths);
            collect_paths_all(stages, paths);
            assert(views(paths@) =~= views(p0) + expr_paths(*expr));
        },
        HirExprKind::Binary { left, right, .. } => {
            collect_paths(left, paths);
            collect_paths(right, paths);
            assert(views(paths@) =~= views(p0) + expr_paths(*expr));
        },
        _ => {
            assert(views(paths@) =~= views(p0) + expr_paths(*expr));
        },
    }
    proof {
        assert(paths@.subrange(0, p0.len() as int) =~= p0);
    }
}

fn collect_paths_all(items: &Vec<HirExpr>, paths: &mut Vec<String>)
    ensures
        final(paths)@.len() >= old(paths)@.len(),
        final(paths)@.subrange(0, old(paths)@.len() as int) == old(paths)@,
        views(final(paths)@) == views(old(paths)@) + exprs_paths(items@),
    decreases items@,
{
    let ghost p0 = paths@;
    let mut i: usize = 0;
    assert(items@.take(0) =~= Seq::<HirExpr>::empty());
    assert(views(paths@) =~= views(p0) + exprs_paths(items@.take(0)));
    while i < items.len()
        invariant
            i <= items@.len(),
            paths@.len() >= p0.len(),
            paths@.subrange(0, p0.len() as int) == p0,
            views(paths@) == views(p0) + exprs_paths(items@.take(i as int)),
        decreases items.len() - i,
    {
        proof {
            assert(decreases_to!(items@ => items@[i as int]));
        }
        collect_paths(&items[i], paths);
        assert(items@.take(i + 1).drop_last() =~= items@.take(i as int));
        assert(views(paths@) =~= views(p0) + exprs_paths(items@.take(i + 1)));
        i = i + 1;
    }
    assert(items@.take(items@.len() as int) =~= items@);
}

fn collect_paths_arms(items: &Vec<HirWhenArm>, paths: &mut Vec<String>)
    ensures
        final(paths)@.len() >= old(paths)@.len(),
        final(paths)@.subrange(0, old(paths)@.len() as int) == old(paths)@,
        views(final(paths)@) == views(old(paths)@) + arms_paths(items@),
    decreases items@,
{
    let ghost p0 = paths@;
    let mut i: usize = 0;
    assert(items@.take(0) =~= Seq::<HirWhenArm>::empty());
    assert(views(paths@) =~= views(p0) + arms_paths(items@.take(0)));
    while i < items.len()
        invariant
            i <= items@.len(),
            paths@.len() >= p0.len(),
            paths@.subrange(0, p0.len() as int) == p0,
            views(paths@) == views(p0) + arms_paths(items@.take(i as int)),
        decreases items.len() - i,
    {
        proof {
            assert(decreases_to!(items@ => items@[i as int]));
        }
        collect_paths(&items[i].value, paths);
        assert(items@.take(i + 1).drop_last() =~= items@.take(i as int));
        assert(views(paths@) =~= views(p0) + arms_paths(items@.take(i + 1)));
        i = i + 1;
    }
    assert(items@.take(items@.len() as int) =~= items@);
}

fn collect_paths_args(items: &Vec<HirCallArg>, paths: &mut Vec<String>)
    ensures
        final(paths)@.len() >= old(paths)@.len(),
        final(paths)@.subrange(0, old(paths)@.len() as int) == old(paths)@,
        views(final(paths)@) == views(old(paths)@) + args_paths(items@),
    decreases items@,
{
    let ghost p0 = paths@;
    let mut i: usize = 0;
    assert(items@.take(0) =~= Seq::<HirCallArg>::empty());
    assert(views(paths@) =~= views(p0) + args_paths(items@.take(0)));
    while i < items.len()
        invariant
            i <= items@.len(),
            paths@.len() >= p0.len(),
            paths@.subrange(0, p0.len() as int) == p0,
            views(paths@) == views(p0) + args_paths(items@.take(i as int)),
        decreases items.len() - i,
    {
        proof {
            assert(decreases_to!(items@ => items@[i as int]));
        }
        collect_paths(&items[i].value, paths);
        assert(items@.take(i + 1).drop_last() =~= items@.take(i as int));
        assert(views(paths@) =~= views(p0) + args_paths(items@.take(i + 1)));
        i = i + 1;
    }
    assert(items@.take(items@.len() as int) =~= items@);
}

/// Lowers each item of the AST module, in order.
pub fn lower_ast_module(module: &AstModule, ctx: &mut LowerContext) -> (r: Vec<HirItem>)
    requires
        old(ctx).flags@.len() == 22,
    ensures
        lowered(*old(ctx), *final(ctx), module_features(*module), module_issue(*module)),
        diags_added(*old(ctx), *final(ctx), items_diags(module.items@)),
        deps_added(*old(ctx), *final(ctx), hitems_deps(r@)),
        r@.len() == module.items@.len(),
        forall|k: int| 0 <= k < r@.len() ==> item_lowers(#[trigger] r@[k], module.items@[k]),
{
    let ghost c0 = *ctx;
    let items = &module.items;
    let mut out: Vec<HirItem> = Vec::new();
    let mut i: usize = 0;
    assert(dep_view(ctx.dependencies@) =~= dep_view(c0.dependencies@) + hitems_deps(out@));
    proof {
        assert(items@.take(0) =~= Seq::<AstItem>::empty());
        assert(items_features(items@.take(0)) =~= Set::<int>::empty());
    }
    assert(diag_view(ctx.diagnostics@) =~= diag_view(c0.diagnostics@) + items_diags(items@.take(0)));
    while i < items.len()
        invariant
            i <= items@.len(),
            out@.len() == i,
            forall|k: int| 0 <= k < i ==> item_lowers(#[trigger] out@[k], items@[k]),
            c0.flags@.len() == 22,
            lowered(c0, *ctx, items_features(items@.take(i as int)), items_issue(items@.take(i as int))),
            diags_added(c0, *ctx, items_diags(items@.take(i as int))),
            deps_added(c0, *ctx, hitems_deps(out@)),
        decreases items.len() - i,
    {
        let ghost c1 = *ctx;
        let item = match &items[i] {
            AstItem::Record(record) => HirItem::Record(lower_record(record, ctx)),
            AstItem::Function(function) => {
                ctx.insert(17);
                let ghost c2 = *ctx;
                let body = lower_expr(&function.body, ctx);
                proof {
                    lemma_lowered_trans(c1, c2, *ctx, set![17int], expr_features(function.body), false, expr_issue(function.body));
                }
                let mut params: Vec<String> = Vec::new();
                let mut k: usize = 0;
                while k < function.params.len()
                    invariant
                        k <= function.params@.len(),
                        params@.len() == k,
                        forall|j: int| 0 <= j < k ==> (#[trigger] params@[j])@ == function.params@[j]@,
                    decreases function.params.len() - k,
                {
                    params.push(function.params[k].clone());
                    k = k + 1;
                }
                HirItem::Function(HirFunction { name: function.name.clone(), params, body, span: function.span })
            },
            AstItem::Expression(expr) => HirItem::Expression(lower_expr(expr, ctx)),
        };
        assert(item_lowers(item, items@[i as int]));
        let ghost o0 = out@;
        out.push(item);
        assert(forall|k: int| 0 <= k < i ==> out@[k] == o0[k]);
        assert(out@.drop_last() =~= o0);
        assert(dep_view(ctx.dependencies@) =~= dep_view(c0.dependencies@) + hitems_deps(out@));
        proof {
            lemma_lowered_trans(c0, c1, *ctx, items_features(items@.take(i as int)), item_features(items@[i as int]), items_issue(items@.take(i as int)), item_issue(items@[i as int]));
            let t = items@.take(i + 1);
            assert(t.drop_last() =~= items@.take(i as int));
            assert(t.last() == items@[i as int]);
            assert(items_features(t) =~= items_features(items@.take(i as int)) + item_features(items@[i as int]));
        }
        assert(diag_view(ctx.diagnostics@) =~= diag_view(c0.diagnostics@) + items_diags(items@.take(i + 1)));
        i = i + 1;
    }
    proof {
        assert(items@.take(items@.len() as int) =~= items@);
    }
    out
}

/// Lowers a parsed module.  The HIR keeps the parsed module and one item
/// per AST item; its features are exactly those the AST uses, in
/// declaration order; it has diagnostics exactly when the AST holds raw
/// syntax, an unknown `List/` operation or an unsupported `Math/` one.
pub fn lower(parsed: ParsedModule) -> (r: HirModule)
    ensures
        r.parsed == parsed,
        r.items@.len() == parsed.ast.items@.len(),
        forall|k: int| 0 <= k < r.items@.len() ==> item_lowers(#[trigger] r.items@[k], parsed.ast.items@[k]),
        forall|j: int, k: int| 0 <= j < k < r.features@.len() ==> feature_index(#[trigger] r.features@[j]) < feature_index(#[trigger] r.features@[k]),
        forall|i: int| 0 <= i < 22 ==> (module_features(parsed.ast).contains(i) <==> exists|j: int| 0 <= j < r.features@.len() && feature_index(#[trigger] r.features@[j]) == i),
        (r.diagnostics@.len() > 0) == module_issue(parsed.ast),
        diag_view(r.diagnostics@) == items_diags(parsed.ast.items@),
        dep_view(r.dependencies@) == hitems_deps(r.items@),
{
    let mut ctx = LowerContext::new();
    let items = lower_ast_module(&parsed.ast, &mut ctx);
    assert(diag_view(ctx.diagnostics@) =~= items_diags(parsed.ast.items@));
    assert(dep_view(ctx.dependencies@) =~= hitems_deps(items@));
    let mut features: Vec<HirFeature> = Vec::new();
    let mut i: usize = 0;
    while i < 22
        invariant
            i <= 22,
            ctx.flags@.len() == 22,
            forall|x: int| 0 <= x < 22 ==> (ctx.flags@[x] <==> module_features(parsed.ast).contains(x)),
            forall|j: int| 0 <= j < features@.len() ==> feature_index(#[trigger] features@[j]) < i,
            forall|j: int, k: int| 0 <= j < k < features@.len() ==> feature_index(#[trigger] features@[j]) < feature_index(#[trigger] features@[k]),
            forall|x: int| 0 <= x < i ==> (ctx.flags@[x] <==> exists|j: int| 0 <= j < features@.len() && feature_index(#[trigger] features@[j]) == x),
            forall|j: int| 0 <= j < features@.len() ==> ctx.flags@[feature_index(#[trigger] features@[j])],
        decreases 22 - i,
    {
        if ctx.flags[i] {
            let f = feature_at(i);
            let ghost before = features@;
            features.push(f);
            proof {
                assert forall|x: int| 0 <= x < i + 1 implies (ctx.flags@[x] <==> exists|j: int| 0 <= j < features@.len() && feature_index(#[trigger] features@[j]) == x) by {
                    if x < i {
                        if ctx.flags@[x] {
                            let j = choose|j: int| 0 <= j < before.len() && feature_index(#[trigger] before[j]) == x;
                            assert(features@[j] == before[j]);
                        }
                    } else {
                        assert(feature_index(features@[before.len() as int]) == x);
                    }
                }
            }
        } else {
            proof {
                assert forall|j: int| 0 <= j < features@.len() implies feature_index(#[trigger] features@[j]) != i by {
                }
            }
        }
        i = i + 1;
    }
    HirModule {
        parsed,
        items,
        features,
        dependencies: ctx.dependencies,
        diagnostics: ctx.diagnostics,
    }
}

} // verus!
