//! Small questions the compiler asks of HIR nodes: the parts of a
//! pipeline, the body of a `HOLD` or `THEN` stage, a named call argument,
//! the record or function of a given name, and the paths an expression
//! mentions.
use vstd::prelude::*;
use crate::hir::{
    HirBinding, HirCallArg, HirExpr, HirExprKind, HirFunction, HirItem, HirLiteral, HirModule,
    HirRecord, HirWhenArm,
};
use crate::syntax::AstBinaryOp;
use crate::text::{chars_of_string, str_eq, string_eq, string_of};
use super::reads::{lemma_views_push, views};

verus! {

/// The input and stages of a pipeline.
pub fn pipeline_parts(e: &HirExpr) -> (r: Option<(&HirExpr, &Vec<HirExpr>)>)
    ensures
        match e.kind {
            HirExprKind::Pipeline { input, stages } => r == Some((&*input, &stages)),
            _ => r is None,
        },
{
    match &e.kind {
        HirExprKind::Pipeline { input, stages } => Some((&**input, stages)),
        _ => None,
    }
}

/// The state name and body of a `HOLD` stage.
pub fn hold_stage(e: &HirExpr) -> (r: Option<(&String, &HirExpr)>)
    ensures
        match e.kind {
            HirExprKind::Hold { state, body } => r == Some((&state, &*body)),
            _ => r is None,
        },
{
    match &e.kind {
        HirExprKind::Hold { state, body } => Some((state, &**body)),
        _ => None,
    }
}

/// The body of a `THEN` stage.
pub fn then_body(e: &HirExpr) -> (r: Option<&HirExpr>)
    ensures
        match e.kind {
            HirExprKind::Then { body } => r == Some(&*body),
            _ => r is None,
        },
{
    match &e.kind {
        HirExprKind::Then { body } => Some(&**body),
        _ => None,
    }
}

/// The value of a number literal.
pub open spec fn number_of(e: HirExpr) -> Option<i64> {
    match e.kind {
        HirExprKind::Literal { literal: HirLiteral::Number { value } } => Some(value),
        _ => None,
    }
}

pub fn number_literal(e: &HirExpr) -> (r: Option<i64>)
    ensures
        r == number_of(*e),
{
    match &e.kind {
        HirExprKind::Literal { literal: HirLiteral::Number { value } } => Some(*value),
        _ => None,
    }
}

/// The path a path expression names.
pub open spec fn path_of(e: HirExpr) -> Option<Seq<char>> {
    match e.kind {
        HirExprKind::Path { value } => Some(value@),
        _ => None,
    }
}

pub fn path_expr(e: &HirExpr) -> (r: Option<&String>)
    ensures
        match path_of(*e) {
            Some(p) => r matches Some(s) && s@ == p,
            None => r is None,
        },
{
    match &e.kind {
        HirExprKind::Path { value } => Some(value),
        _ => None,
    }
}

/// The step that a `THEN` body adds to the held state: `state + n`.
pub open spec fn add_step_of(e: HirExpr, state: Seq<char>) -> Option<i64> {
    match e.kind {
        HirExprKind::Binary { op: AstBinaryOp::Add, left, right } => if path_of(*left) == Some(state) {
            number_of(*right)
        } else {
            None
        },
        _ => None,
    }
}

pub fn add_step_expr(e: &HirExpr, state: &String) -> (r: Option<i64>)
    ensures
        r == add_step_of(*e, state@),
{
    match &e.kind {
        HirExprKind::Binary { op: AstBinaryOp::Add, left, right } => {
            match path_expr(left) {
                Some(p) => {
                    if string_eq(p, state) {
                        number_literal(right)
                    } else {
                        None
                    }
                },
                None => None,
            }
        },
        _ => None,
    }
}

/// The position of the first argument named `name`.
pub open spec fn arg_index(args: Seq<HirCallArg>, name: Seq<char>) -> Option<int> {
    if exists|i: int| 0 <= i < args.len() && (#[trigger] args[i]).name@ == name {
        Some(choose|i: int| 0 <= i < args.len() && (#[trigger] args[i]).name@ == name
            && forall|j: int| 0 <= j < i ==> args[j].name@ != name)
    } else {
        None
    }
}

/// The position of the first argument named `name`.
pub fn named_arg_index(args: &Vec<HirCallArg>, name: &str) -> (r: Option<usize>)
    ensures
        match arg_index(args@, name@) {
            Some(i) => r == Some(i as usize) && 0 <= i < args@.len(),
            None => r is None,
        },
        r matches Some(k) ==> k < args@.len(),
{
    let mut i: usize = 0;
    while i < args.len()
        invariant
            i <= args@.len(),
            forall|j: int| 0 <= j < i ==> (#[trigger] args@[j]).name@ != name@,
        decreases args.len() - i,
    {
        if str_eq(&args[i].name, name) {
            proof {
                let w = choose|w: int| 0 <= w < args@.len() && (#[trigger] args@[w]).name@ == name@
                    && forall|j: int| 0 <= j < w ==> args@[j].name@ != name@;
                assert(w == i) by {
                    if w < i {
                        assert(args@[w].name@ != name@);
                    }
                    if w > i {
                        assert(args@[i as int].name@ != name@);
                    }
                }
            }
            return Some(i);
        }
        i = i + 1;
    }
    None
}

/// The value of the first argument named `name`.
pub fn named_arg<'a>(args: &'a Vec<HirCallArg>, name: &str) -> (r: Option<&'a HirExpr>)
    ensures
        match arg_index(args@, name@) {
            Some(i) => r == Some(&args@[i].value),
            None => r is None,
        },
{
    let mut i: usize = 0;
    while i < args.len()
        invariant
            i <= args@.len(),
            forall|j: int| 0 <= j < i ==> (#[trigger] args@[j]).name@ != name@,
        decreases args.len() - i,
    {
        if str_eq(&args[i].name, name) {
            proof {
                let w = choose|w: int| 0 <= w < args@.len() && (#[trigger] args@[w]).name@ == name@
                    && forall|j: int| 0 <= j < w ==> args@[j].name@ != name@;
                assert(w == i) by {
                    if w < i {
                        assert(args@[w].name@ != name@);
                    }
                    if w > i {
                        assert(args@[i as int].name@ != name@);
                    }
                }
            }
            return Some(&args[i].value);
        }
        i = i + 1;
    }
    None
}

/// The path at the head of an expression: the path itself, or the head of
/// a pipeline's input.
pub open spec fn first_path(e: HirExpr) -> Option<Seq<char>>
    decreases e,
{
    match e.kind {
        HirExprKind::Path { value } => Some(value@),
        HirExprKind::Pipeline { input, .. } => first_path(*input),
        _ => None,
    }
}

pub fn first_path_in_expr(e: &HirExpr) -> (r: Option<&String>)
    ensures
        match first_path(*e) {
            Some(p) => r matches Some(s) && s@ == p,
            None => r is None,
        },
    decreases e,
{
    match &e.kind {
        HirExprKind::Path { value } => Some(value),
        HirExprKind::Pipeline { input, .. } => first_path_in_expr(input),
        _ => None,
    }
}

/// The position of the first top-level record item with key `key`.
pub open spec fn record_item_index(items: Seq<HirItem>, key: Seq<char>) -> Option<int> {
    if exists|i: int| 0 <= i < items.len() && #[trigger] record_item_is(items[i], key) {
        Some(choose|i: int| 0 <= i < items.len() && #[trigger] record_item_is(items[i], key)
            && forall|j: int| 0 <= j < i ==> !record_item_is(items[j], key))
    } else {
        None
    }
}

pub open spec fn record_item_is(item: HirItem, key: Seq<char>) -> bool {
    item matches HirItem::Record(r) && r.key@ == key
}

/// The first top-level record with key `key`.
pub fn hir_record<'a>(hir: &'a HirModule, key: &str) -> (r: Option<&'a HirRecord>)
    ensures
        match record_item_index(hir.items@, key@) {
            Some(i) => r matches Some(rec) && hir.items@[i] == HirItem::Record(*rec),
            None => r is None,
        },
{
    let mut i: usize = 0;
    while i < hir.items.len()
        invariant
            i <= hir.items@.len(),
            forall|j: int| 0 <= j < i ==> !#[trigger] record_item_is(hir.items@[j], key@),
        decreases hir.items.len() - i,
    {
        match &hir.items[i] {
            HirItem::Record(rec) => {
                if str_eq(&rec.key, key) {
                    proof {
                        assert(record_item_is(hir.items@[i as int], key@));
                        let w = choose|w: int| 0 <= w < hir.items@.len() && #[trigger] record_item_is(hir.items@[w], key@)
                            && forall|j: int| 0 <= j < w ==> !record_item_is(hir.items@[j], key@);
                        assert(w == i) by {
                            if w < i {
                                assert(!record_item_is(hir.items@[w], key@));
                            }
                            if w > i {
                                assert(!record_item_is(hir.items@[i as int], key@));
                            }
                        }
                    }
                    return Some(rec);
                }
            },
            _ => {},
        }
        i = i + 1;
    }
    None
}

/// The position of the first child of `record` with key `key`.
pub open spec fn hir_child_index(record: HirRecord, key: Seq<char>) -> Option<int> {
    if exists|i: int| 0 <= i < record.children@.len() && (#[trigger] record.children@[i]).key@ == key {
        Some(choose|i: int| 0 <= i < record.children@.len() && (#[trigger] record.children@[i]).key@ == key
            && forall|j: int| 0 <= j < i ==> record.children@[j].key@ != key)
    } else {
        None
    }
}

/// The first child of `record` with key `key`.
pub fn hir_child_record<'a>(record: &'a HirRecord, key: &str) -> (r: Option<&'a HirRecord>)
    ensures
        match hir_child_index(*record, key@) {
            Some(i) => r == Some(&record.children@[i]),
            None => r is None,
        },
{
    let mut i: usize = 0;
    while i < record.children.len()
        invariant
            i <= record.children@.len(),
            forall|j: int| 0 <= j < i ==> (#[trigger] record.children@[j]).key@ != key@,
        decreases record.children.len() - i,
    {
        if str_eq(&record.children[i].key, key) {
            proof {
                let w = choose|w: int| 0 <= w < record.children@.len() && (#[trigger] record.children@[w]).key@ == key@
                    && forall|j: int| 0 <= j < w ==> record.children@[j].key@ != key@;
                assert(w == i) by {
                    if w < i {
                        assert(record.children@[w].key@ != key@);
                    }
                    if w > i {
                        assert(record.children@[i as int].key@ != key@);
                    }
                }
            }
            return Some(&record.children[i]);
        }
        i = i + 1;
    }
    None
}

pub open spec fn function_item_is(item: HirItem, name: Seq<char>) -> bool {
    item matches HirItem::Function(f) && f.name@ == name
}

/// The first function of `items` named `name`.
pub open spec fn first_function(items: Seq<HirItem>, name: Seq<char>) -> Option<HirFunction> {
    if exists|i: int| 0 <= i < items.len() && #[trigger] function_item_is(items[i], name) {
        let i = choose|i: int|
            0 <= i < items.len() && #[trigger] function_item_is(items[i], name) && forall|j: int|
                0 <= j < i ==> !#[trigger] function_item_is(items[j], name);
        Some(items[i]->Function_0)
    } else {
        None
    }
}

/// The first function of the module named `name`.
pub fn hir_function<'a>(hir: &'a HirModule, name: &String) -> (r: Option<&'a HirFunction>)
    ensures
        r matches Some(f) ==> f.name@ == name@ && exists|i: int| 0 <= i < hir.items@.len() && hir.items@[i] == HirItem::Function(*f),
        r is None ==> forall|i: int| 0 <= i < hir.items@.len() ==> !#[trigger] function_item_is(hir.items@[i], name@),
        match first_function(hir.items@, name@) {
            Some(f) => r matches Some(g) && *g == f,
            None => r is None,
        },
{
    let mut i: usize = 0;
    while i < hir.items.len()
        invariant
            i <= hir.items@.len(),
            forall|j: int| 0 <= j < i ==> !#[trigger] function_item_is(hir.items@[j], name@),
        decreases hir.items.len() - i,
    {
        match &hir.items[i] {
            HirItem::Function(f) => {
                if string_eq(&f.name, name) {
                    proof {
                        let items = hir.items@;
                        assert(function_item_is(items[i as int], name@));
                        let w = choose|w: int|
                            0 <= w < items.len() && #[trigger] function_item_is(items[w], name@) && forall|j: int|
                                0 <= j < w ==> !#[trigger] function_item_is(items[j], name@);
                        if w < i {
                            assert(!function_item_is(items[w], name@));
                        }
                        if w > i {
                            assert(!function_item_is(items[i as int], name@));
                        }
                    }
                    return Some(f);
                }
            },
            _ => {},
        }
        i = i + 1;
    }
    None
}

// ---------------------------------------------------------------------------
// The paths an expression mentions
// ---------------------------------------------------------------------------

/// Every path an expression mentions, in the order they are met; the
/// values of a record literal's entries and of their direct children count.
pub open spec fn expr_paths(e: HirExpr) -> Seq<Seq<char>>
    decreases e, 1int,
{
    match e.kind {
        HirExprKind::Path { value } => seq![value@],
        HirExprKind::Record { entries } => entry_paths(entries@),
        HirExprKind::List { items } => exprs_paths(items@),
        HirExprKind::Block { bindings } => bindings_paths(bindings@),
        HirExprKind::When { arms } => arms_paths(arms@),
        HirExprKind::While { arms } => arms_paths(arms@),
        HirExprKind::Then { body } => expr_paths(*body),
        HirExprKind::Hold { body, .. } => expr_paths(*body),
        HirExprKind::Latest { branches } => exprs_paths(branches@),
        HirExprKind::HostCall { args, .. } => args_paths(args@),
        HirExprKind::ListCall { args, .. } => args_paths(args@),
        HirExprKind::FunctionCall { args, .. } => args_paths(args@),
        HirExprKind::Pipeline { input, stages } => expr_paths(*input) + exprs_paths(stages@),
        HirExprKind::Binary { left, right, .. } => expr_paths(*left) + expr_paths(*right),
        _ => Seq::empty(),
    }
}

pub open spec fn opt_value_paths(v: Option<HirExpr>) -> Seq<Seq<char>>
    decreases v, 0int,
{
    match v {
        Some(x) => expr_paths(x),
        None => Seq::empty(),
    }
}

pub open spec fn child_value_paths(s: Seq<HirRecord>) -> Seq<Seq<char>>
    decreases s, 0int,
{
    if s.len() == 0 {
        Seq::empty()
    } else {
        proof {
            assert(decreases_to!(s => s[s.len() - 1]));
        }
        child_value_paths(s.drop_last()) + opt_value_paths(s[s.len() - 1].value)
    }
}

pub open spec fn entry_paths(s: Seq<HirRecord>) -> Seq<Seq<char>>
    decreases s, 0int,
{
    if s.len() == 0 {
        Seq::empty()
    } else {
        proof {
            assert(decreases_to!(s => s[s.len() - 1]));
        }
        entry_paths(s.drop_last()) + opt_value_paths(s[s.len() - 1].value) + child_value_paths(s[s.len() - 1].children@)
    }
}

pub open spec fn exprs_paths(s: Seq<HirExpr>) -> Seq<Seq<char>>
    decreases s, 0int,
{
    if s.len() == 0 {
        Seq::empty()
    } else {
        proof {
            assert(decreases_to!(s => s[s.len() - 1]));
        }
        exprs_paths(s.drop_last()) + expr_paths(s[s.len() - 1])
    }
}

pub open spec fn bindings_paths(s: Seq<HirBinding>) -> Seq<Seq<char>>
    decreases s, 0int,
{
    if s.len() == 0 {
        Seq::empty()
    } else {
        proof {
            assert(decreases_to!(s => s[s.len() - 1]));
        }
        bindings_paths(s.drop_last()) + expr_paths(s[s.len() - 1].value)
    }
}

pub open spec fn arms_paths(s: Seq<HirWhenArm>) -> Seq<Seq<char>>
    decreases s, 0int,
{
    if s.len() == 0 {
        Seq::empty()
    } else {
        proof {
            assert(decreases_to!(s => s[s.len() - 1]));
        }
        arms_paths(s.drop_last()) + expr_paths(s[s.len() - 1].value)
    }
}

pub open spec fn args_paths(s: Seq<HirCallArg>) -> Seq<Seq<char>>
    decreases s, 0int,
{
    if s.len() == 0 {
        Seq::empty()
    } else {
        proof {
            assert(decreases_to!(s => s[s.len() - 1]));
        }
        args_paths(s.drop_last()) + expr_paths(s[s.len() - 1].value)
    }
}

/// Appends every path `e` mentions.
pub fn collect_expr_paths(e: &HirExpr, out: &mut Vec<String>)
    ensures
        views(final(out)@) == views(old(out)@) + expr_paths(*e),
    decreases e, 2int,
{
    match &e.kind {
        HirExprKind::Path { value } => {
            let ghost before = out@;
            let s = string_of(&chars_of_string(value));
            let ghost gs = s;
            out.push(s);
            proof {
                lemma_views_push(before, gs);
            }
        },
        HirExprKind::Record { entries } => paths_of_entries(entries, out),
        HirExprKind::List { items } => paths_of_exprs(items, out),
        HirExprKind::Block { bindings } => paths_of_bindings(bindings, out),
        HirExprKind::When { arms } => paths_of_arms(arms, out),
        HirExprKind::While { arms } => paths_of_arms(arms, out),
        HirExprKind::Then { body } => collect_expr_paths(body, out),
        HirExprKind::Hold { body, .. } => collect_expr_paths(body, out),
        HirExprKind::Latest { branches } => paths_of_exprs(branches, out),
        HirExprKind::HostCall { args, .. } => paths_of_args(args, out),
        HirExprKind::ListCall { args, .. } => paths_of_args(args, out),
        HirExprKind::FunctionCall { args, .. } => paths_of_args(args, out),
        HirExprKind::Pipeline { input, stages } => {
            collect_expr_paths(input, out);
            paths_of_exprs(stages, out);
        },
        HirExprKind::Binary { left, right, .. } => {
            collect_expr_paths(left, out);
            collect_expr_paths(right, out);
        },
        _ => {},
    }
}

fn paths_of_value(v: &Option<HirExpr>, out: &mut Vec<String>)
    ensures
        views(final(out)@) == views(old(out)@) + opt_value_paths(*v),
    decreases *v, 1int,
{
    match v {
        Some(x) => collect_expr_paths(x, out),
        None => {},
    }
}

fn paths_of_children(s: &Vec<HirRecord>, out: &mut Vec<String>)
    ensures
        views(final(out)@) == views(old(out)@) + child_value_paths(s@),
    decreases s@, 2int,
{
    let ghost o0 = views(out@);
    let mut i: usize = 0;
    assert(s@.take(0) =~= Seq::<HirRecord>::empty());
    while i < s.len()
        invariant
            i <= s@.len(),
            views(out@) == o0 + child_value_paths(s@.take(i as int)),
        decreases s.len() - i,
    {
        proof {
            assert(decreases_to!(s@ => s@[i as int]));
        }
        paths_of_value(&s[i].value, out);
        proof {
            let t = s@.take(i + 1);
            assert(t.drop_last() =~= s@.take(i as int));
        }
        i = i + 1;
    }
    assert(s@.take(s@.len() as int) =~= s@);
}

fn paths_of_entries(s: &Vec<HirRecord>, out: &mut Vec<String>)
    ensures
        views(final(out)@) == views(old(out)@) + entry_paths(s@),
    decreases s@, 3int,
{
    let ghost o0 = views(out@);
    let mut i: usize = 0;
    assert(s@.take(0) =~= Seq::<HirRecord>::empty());
    while i < s.len()
        invariant
            i <= s@.len(),
            views(out@) == o0 + entry_paths(s@.take(i as int)),
        decreases s.len() - i,
    {
        proof {
            assert(decreases_to!(s@ => s@[i as int]));
        }
        paths_of_value(&s[i].value, out);
        paths_of_children(&s[i].children, out);
        proof {
            let t = s@.take(i + 1);
            assert(t.drop_last() =~= s@.take(i as int));
        }
        i = i + 1;
    }
    assert(s@.take(s@.len() as int) =~= s@);
}

fn paths_of_exprs(s: &Vec<HirExpr>, out: &mut Vec<String>)
    ensures
        views(final(out)@) == views(old(out)@) + exprs_paths(s@),
    decreases s@, 1int,
{
    let ghost o0 = views(out@);
    let mut i: usize = 0;
    assert(s@.take(0) =~= Seq::<HirExpr>::empty());
    while i < s.len()
        invariant
            i <= s@.len(),
            views(out@) == o0 + exprs_paths(s@.take(i as int)),
        decreases s.len() - i,
    {
        proof {
            assert(decreases_to!(s@ => s@[i as int]));
        }
        collect_expr_paths(&s[i], out);
        proof {
            let t = s@.take(i + 1);
            assert(t.drop_last() =~= s@.take(i as int));
        }
        i = i + 1;
    }
    assert(s@.take(s@.len() as int) =~= s@);
}

fn paths_of_bindings(s: &Vec<HirBinding>, out: &mut Vec<String>)
    ensures
        views(final(out)@) == views(old(out)@) + bindings_paths(s@),
    decreases s@, 1int,
{
    let ghost o0 = views(out@);
    let mut i: usize = 0;
    assert(s@.take(0) =~= Seq::<HirBinding>::empty());
    while i < s.len()
        invariant
            i <= s@.len(),
            views(out@) == o0 + bindings_paths(s@.take(i as int)),
        decreases s.len() - i,
    {
        proof {
            assert(decreases_to!(s@ => s@[i as int]));
        }
        collect_expr_paths(&s[i].value, out);
        proof {
            let t = s@.take(i + 1);
            assert(t.drop_last() =~= s@.take(i as int));
        }
        i = i + 1;
    }
    assert(s@.take(s@.len() as int) =~= s@);
}

fn paths_of_arms(s: &Vec<HirWhenArm>, out: &mut Vec<String>)
    ensures
        views(final(out)@) == views(old(out)@) + arms_paths(s@),
    decreases s@, 1int,
{
    let ghost o0 = views(out@);
    let mut i: usize = 0;
    assert(s@.take(0) =~= Seq::<HirWhenArm>::empty());
    while i < s.len()
        invariant
            i <= s@.len(),
            views(out@) == o0 + arms_paths(s@.take(i as int)),
        decreases s.len() - i,
    {
        proof {
            assert(decreases_to!(s@ => s@[i as int]));
        }
        collect_expr_paths(&s[i].value, out);
        proof {
            let t = s@.take(i + 1);
            assert(t.drop_last() =~= s@.take(i as int));
        }
        i = i + 1;
    }
    assert(s@.take(s@.len() as int) =~= s@);
}

fn paths_of_args(s: &Vec<HirCallArg>, out: &mut Vec<String>)
    ensures
        views(final(out)@) == views(old(out)@) + args_paths(s@),
    decreases s@, 1int,
{
    let ghost o0 = views(out@);
    let mut i: usize = 0;
    assert(s@.take(0) =~= Seq::<HirCallArg>::empty());
    while i < s.len()
        invariant
            i <= s@.len(),
            views(out@) == o0 + args_paths(s@.take(i as int)),
        decreases s.len() - i,
    {
        proof {
            assert(decreases_to!(s@ => s@[i as int]));
        }
        collect_expr_paths(&s[i].value, out);
        proof {
            let t = s@.take(i + 1);
            assert(t.drop_last() =~= s@.take(i as int));
        }
        i = i + 1;
    }
    assert(s@.take(s@.len() as int) =~= s@);
}

} // verus!
