//! The executable IR: one state slot per held record, and for each the
//! source handler that sets it when its source fires.
use vstd::prelude::*;
use crate::hir::{HirCallArg, HirExpr, HirExprKind, HirItem, HirLiteral, HirModule, HirRecord, HirWhenArm};
use crate::source::{SourceEntry, SourceInventory};
use crate::syntax::AstBinaryOp;
use crate::text::{chars_of_string, push_all, push_str, str_eq, string_eq, string_of};
use super::{ExecCallArg, ExecEffect, ExecExpr, ExecSourceHandler, ExecStateSlot, ExecWhenArm, ExecutableIr};
use super::hirq::{hold_stage, path_expr, pipeline_parts, then_body};
use super::render::{render_tree_from_hir, tree_backed};
use super::resolve::{in_inventory, resolve_source_path};

verus! {

/// Every source an executable expression reads is in the inventory.
pub open spec fn exec_sources_in(x: ExecExpr, entries: Seq<SourceEntry>) -> bool
    decreases x,
{
    match x {
        ExecExpr::Source { path } => in_inventory(entries, path@),
        ExecExpr::Add { left, right } => exec_sources_in(*left, entries) && exec_sources_in(*right, entries),
        ExecExpr::Subtract { left, right } => exec_sources_in(*left, entries) && exec_sources_in(*right, entries),
        ExecExpr::Equal { left, right } => exec_sources_in(*left, entries) && exec_sources_in(*right, entries),
        ExecExpr::TextFromNumber { value } => exec_sources_in(*value, entries),
        ExecExpr::Call { args, .. } => forall|i: int| 0 <= i < args@.len() ==> exec_sources_in(#[trigger] args@[i].value, entries),
        ExecExpr::When { arms } => forall|i: int| 0 <= i < arms@.len() ==> exec_sources_in(#[trigger] arms@[i].value, entries),
        _ => true,
    }
}

/// Whether a HIR expression has an executable form: literals, tags,
/// `SKIP` and paths; sums, differences and comparisons of such; calls and
/// `WHEN`s whose argument and arm values all have one; a single
/// `Text/from_number()` stage over such an input.
pub open spec fn exec_convertible(e: HirExpr) -> bool
    decreases e, 2int,
{
    match e.kind {
        HirExprKind::Literal { .. } => true,
        HirExprKind::Tag { .. } => true,
        HirExprKind::Skip => true,
        HirExprKind::Path { .. } => true,
        HirExprKind::Binary { left, right, .. } => exec_convertible(*left) && exec_convertible(*right),
        HirExprKind::FunctionCall { args, .. } => args_convertible(args@),
        HirExprKind::When { arms } => arms_convertible(arms@),
        HirExprKind::Pipeline { input, stages } => stages@.len() == 1 && (match stages@[0].kind {
            HirExprKind::FunctionCall { path, .. } => path@ == "Text/from_number"@,
            _ => false,
        }) && exec_convertible(*input),
        _ => false,
    }
}

/// Whether every argument value has an executable form.
pub open spec fn args_convertible(s: Seq<HirCallArg>) -> bool
    decreases s, 1int,
{
    if s.len() == 0 {
        true
    } else {
        proof {
            assert(decreases_to!(s => s[s.len() - 1]));
        }
        args_convertible(s.drop_last()) && exec_convertible(s[s.len() - 1].value)
    }
}

/// Whether every arm value has an executable form.
pub open spec fn arms_convertible(s: Seq<HirWhenArm>) -> bool
    decreases s, 1int,
{
    if s.len() == 0 {
        true
    } else {
        proof {
            assert(decreases_to!(s => s[s.len() - 1]));
        }
        arms_convertible(s.drop_last()) && exec_convertible(s[s.len() - 1].value)
    }
}

/// The executable expression of a HIR expression: literals, tags and
/// `SKIP` as themselves; a path as the held state where it names it, as
/// the source it resolves to, else as state; sums, differences,
/// comparisons, calls and `WHEN` arms part by part; `x |> Text/from_number()`
/// as a text of a number. Anything else has none.
pub fn exec_expr_from_hir(e: &HirExpr, hold: Option<(&String, &String)>, sources: &SourceInventory) -> (r: Option<ExecExpr>)
    ensures
        r matches Some(x) ==> exec_sources_in(x, sources.entries@),
        r is Some <==> exec_convertible(*e),
    decreases e, 2int,
{
    match &e.kind {
        HirExprKind::Literal { literal: HirLiteral::Number { value } } => Some(ExecExpr::Number { value: *value }),
        HirExprKind::Literal { literal: HirLiteral::Text { value } } => Some(ExecExpr::Text { value: value.clone() }),
        HirExprKind::Literal { literal: HirLiteral::Bool { value } } => Some(ExecExpr::Bool { value: *value }),
        HirExprKind::Tag { value } => Some(ExecExpr::Tag { value: value.clone() }),
        HirExprKind::Skip => Some(ExecExpr::Skip),
        HirExprKind::Path { value } => {
            match hold {
                Some((name, path)) => {
                    if string_eq(value, name) {
                        return Some(ExecExpr::State { path: path.clone() });
                    }
                },
                None => {},
            }
            match resolve_source_path(sources, &chars_of_string(value)) {
                Some(p) => Some(ExecExpr::Source { path: p }),
                None => Some(ExecExpr::State { path: value.clone() }),
            }
        },
        HirExprKind::Binary { op, left, right } => {
            let l = match exec_expr_from_hir(left, hold, sources) {
                Some(x) => x,
                None => return None,
            };
            let r = match exec_expr_from_hir(right, hold, sources) {
                Some(x) => x,
                None => return None,
            };
            match op {
                AstBinaryOp::Add => Some(ExecExpr::Add { left: Box::new(l), right: Box::new(r) }),
                AstBinaryOp::Subtract => Some(ExecExpr::Subtract { left: Box::new(l), right: Box::new(r) }),
                AstBinaryOp::Equal => Some(ExecExpr::Equal { left: Box::new(l), right: Box::new(r) }),
            }
        },
        HirExprKind::FunctionCall { path, args } => {
            match exec_args(args, hold, sources) {
                Some(a) => Some(ExecExpr::Call { path: path.clone(), args: a }),
                None => None,
            }
        },
        HirExprKind::When { arms } => {
            match exec_arms(arms, hold, sources) {
                Some(a) => Some(ExecExpr::When { arms: a }),
                None => None,
            }
        },
        HirExprKind::Pipeline { input, stages } => {
            proof {
                reveal_strlit("Text/from_number");
            }
            if stages.len() == 1 {
                match &stages[0].kind {
                    HirExprKind::FunctionCall { path, .. } => {
                        if str_eq(path, "Text/from_number") {
                            return match exec_expr_from_hir(input, hold, sources) {
                                Some(v) => Some(ExecExpr::TextFromNumber { value: Box::new(v) }),
                                None => None,
                            };
                        }
                    },
                    _ => {},
                }
            }
            None
        },
        _ => None,
    }
}

/// The call arguments, each as an executable expression; none where one
/// has none.
fn exec_args(args: &Vec<HirCallArg>, hold: Option<(&String, &String)>, sources: &SourceInventory) -> (r: Option<Vec<ExecCallArg>>)
    ensures
        r matches Some(v) ==> forall|i: int| 0 <= i < v@.len() ==> exec_sources_in(#[trigger] v@[i].value, sources.entries@),
        r is Some <==> args_convertible(args@),
        r matches Some(v) ==> v@.len() == args@.len() && forall|i: int| 0 <= i < v@.len() ==> (#[trigger] v@[i]).name@ == args@[i].name@,
    decreases args@, 1int,
{
    let mut out: Vec<ExecCallArg> = Vec::new();
    let mut i: usize = 0;
    while i < args.len()
        invariant
            i <= args@.len(),
            out@.len() == i,
            args_convertible(args@.take(i as int)),
            forall|k: int| 0 <= k < i ==> (#[trigger] out@[k]).name@ == args@[k].name@,
            forall|k: int| 0 <= k < out@.len() ==> exec_sources_in(#[trigger] out@[k].value, sources.entries@),
        decreases args.len() - i,
    {
        proof {
            assert(decreases_to!(args@ => args@[i as int]));
        }
        assert(args@.take(i + 1).drop_last() =~= args@.take(i as int));
        let v = match exec_expr_from_hir(&args[i].value, hold, sources) {
            Some(x) => x,
            None => {
                proof {
                    lemma_args_convertible_prefix(args@, i + 1);
                }
                return None;
            },
        };
        out.push(ExecCallArg { name: args[i].name.clone(), value: v });
        i = i + 1;
    }
    assert(args@.take(args@.len() as int) =~= args@);
    Some(out)
}

proof fn lemma_args_convertible_prefix(s: Seq<HirCallArg>, k: int)
    requires
        0 <= k <= s.len(),
        !args_convertible(s.take(k)),
    ensures
        !args_convertible(s),
    decreases s.len() - k,
{
    if k < s.len() {
        assert(s.take(k + 1).drop_last() =~= s.take(k));
        lemma_args_convertible_prefix(s, k + 1);
    } else {
        assert(s.take(k) =~= s);
    }
}

/// The `WHEN` arms, each as an executable expression; none where one has
/// none.
fn exec_arms(arms: &Vec<HirWhenArm>, hold: Option<(&String, &String)>, sources: &SourceInventory) -> (r: Option<Vec<ExecWhenArm>>)
    ensures
        r matches Some(v) ==> forall|i: int| 0 <= i < v@.len() ==> exec_sources_in(#[trigger] v@[i].value, sources.entries@),
        r is Some <==> arms_convertible(arms@),
        r matches Some(v) ==> v@.len() == arms@.len() && forall|i: int| 0 <= i < v@.len() ==> (#[trigger] v@[i]).pattern@ == arms@[i].pattern@,
    decreases arms@, 1int,
{
    let mut out: Vec<ExecWhenArm> = Vec::new();
    let mut i: usize = 0;
    while i < arms.len()
        invariant
            i <= arms@.len(),
            out@.len() == i,
            arms_convertible(arms@.take(i as int)),
            forall|k: int| 0 <= k < i ==> (#[trigger] out@[k]).pattern@ == arms@[k].pattern@,
            forall|k: int| 0 <= k < out@.len() ==> exec_sources_in(#[trigger] out@[k].value, sources.entries@),
        decreases arms.len() - i,
    {
        proof {
            assert(decreases_to!(arms@ => arms@[i as int]));
        }
        assert(arms@.take(i + 1).drop_last() =~= arms@.take(i as int));
        let v = match exec_expr_from_hir(&arms[i].value, hold, sources) {
            Some(x) => x,
            None => {
                proof {
                    lemma_arms_convertible_prefix(arms@, i + 1);
                }
                return None;
            },
        };
        out.push(ExecWhenArm { pattern: arms[i].pattern.clone(), value: v });
        i = i + 1;
    }
    assert(arms@.take(arms@.len() as int) =~= arms@);
    Some(out)
}

proof fn lemma_arms_convertible_prefix(s: Seq<HirWhenArm>, k: int)
    requires
        0 <= k <= s.len(),
        !arms_convertible(s.take(k)),
    ensures
        !arms_convertible(s),
    decreases s.len() - k,
{
    if k < s.len() {
        assert(s.take(k + 1).drop_last() =~= s.take(k));
        lemma_arms_convertible_prefix(s, k + 1);
    } else {
        assert(s.take(k) =~= s);
    }
}

/// The resolved source of a held state's body: `source |> THEN { value }`
/// where the first `THEN` stage's value has an executable form, or the
/// first such branch of a `LATEST`.
pub open spec fn exec_then(e: HirExpr, entries: Seq<SourceEntry>) -> Option<Seq<char>>
    decreases e, 1int,
{
    match e.kind {
        HirExprKind::Pipeline { input, stages } => match super::hirq::path_of(*input) {
            Some(p) => match super::resolve::resolved_source(entries, p) {
                Some(src) => match crate::wiring::first_some(stages@, super::app_ir::then_of()) {
                    Some(body) => if exec_convertible(body) { Some(src) } else { None },
                    None => None,
                },
                None => None,
            },
            None => None,
        },
        HirExprKind::Latest { branches } => exec_then_branches(branches@, entries),
        _ => None,
    }
}

/// The first branch that [`exec_then`] finds a source in.
pub open spec fn exec_then_branches(bs: Seq<HirExpr>, entries: Seq<SourceEntry>) -> Option<Seq<char>>
    decreases bs, 0int,
{
    if bs.len() == 0 {
        None
    } else {
        proof {
            assert(decreases_to!(bs => bs[bs.len() - 1]));
        }
        match exec_then_branches(bs.drop_last(), entries) {
            Some(x) => Some(x),
            None => exec_then(bs[bs.len() - 1], entries),
        }
    }
}

proof fn lemma_exec_then_branches_prefix(bs: Seq<HirExpr>, entries: Seq<SourceEntry>, k: int)
    requires
        0 <= k <= bs.len(),
        exec_then_branches(bs.take(k), entries) is Some,
    ensures
        exec_then_branches(bs, entries) == exec_then_branches(bs.take(k), entries),
    decreases bs.len() - k,
{
    if k < bs.len() {
        assert(bs.take(k + 1).drop_last() =~= bs.take(k));
        lemma_exec_then_branches_prefix(bs, entries, k + 1);
    } else {
        assert(bs.take(k) =~= bs);
    }
}

/// The source a found handler listens to.
pub open spec fn found_source(r: Option<(String, ExecExpr)>) -> Option<Seq<char>> {
    match r {
        Some((p, _)) => Some(p@),
        None => None,
    }
}

/// The source and new value of a held state: `source |> THEN { value }`,
/// or the first such branch of a `LATEST`.
#[verifier::loop_isolation(false)]
pub fn executable_source_then_expr(e: &HirExpr, state_name: &String, state_path: &String, sources: &SourceInventory) -> (r: Option<(String, ExecExpr)>)
    ensures
        r matches Some((p, x)) ==> in_inventory(sources.entries@, p@) && exec_sources_in(x, sources.entries@),
        found_source(r) == exec_then(*e, sources.entries@),
    decreases e, 1int,
{
    match &e.kind {
        HirExprKind::Pipeline { input, stages } => {
            let source_path = match path_expr(input) {
                Some(p) => match resolve_source_path(sources, &chars_of_string(p)) {
                    Some(s) => s,
                    None => return None,
                },
                None => return None,
            };
            let mut i: usize = 0;
            while i < stages.len()
                invariant
                    i <= stages@.len(),
                    in_inventory(sources.entries@, source_path@),
                    crate::wiring::first_some(stages@.take(i as int), super::app_ir::then_of()) is None,
                decreases stages.len() - i,
            {
                proof {
                    crate::wiring::lemma_first_some_step(stages@, super::app_ir::then_of(), i as int);
                }
                match then_body(&stages[i]) {
                    Some(body) => {
                        proof {
                            crate::wiring::lemma_first_some_prefix(stages@, super::app_ir::then_of(), i + 1);
                        }
                        return match exec_expr_from_hir(body, Some((state_name, state_path)), sources) {
                            Some(v) => Some((source_path, v)),
                            None => None,
                        };
                    },
                    None => {},
                }
                i = i + 1;
            }
            proof {
                crate::wiring::lemma_first_some_all(stages@, super::app_ir::then_of());
            }
            None
        },
        HirExprKind::Latest { branches } => source_then_in_branches(branches, state_name, state_path, sources),
        _ => None,
    }
}

/// The first branch that gives a source and new value.
fn source_then_in_branches(branches: &Vec<HirExpr>, state_name: &String, state_path: &String, sources: &SourceInventory) -> (r: Option<(String, ExecExpr)>)
    ensures
        r matches Some((p, x)) ==> in_inventory(sources.entries@, p@) && exec_sources_in(x, sources.entries@),
        found_source(r) == exec_then_branches(branches@, sources.entries@),
    decreases branches@, 0int,
{
    let mut i: usize = 0;
    while i < branches.len()
        invariant
            i <= branches@.len(),
            exec_then_branches(branches@.take(i as int), sources.entries@) is None,
        decreases branches.len() - i,
    {
        proof {
            assert(decreases_to!(branches@ => branches@[i as int]));
            assert(branches@.take(i + 1).drop_last() =~= branches@.take(i as int));
        }
        match executable_source_then_expr(&branches[i], state_name, state_path, sources) {
            Some(found) => {
                proof {
                    lemma_exec_then_branches_prefix(branches@, sources.entries@, i + 1);
                }
                return Some(found);
            },
            None => {},
        }
        i = i + 1;
    }
    assert(branches@.take(branches@.len() as int) =~= branches@);
    None
}

/// The source of a held record's handler: `initial |> HOLD state { body }`
/// with an executable initial value, the first `HOLD` stage, and a body
/// that [`exec_then`] finds a source in.
pub open spec fn hold_handler_source(record: HirRecord, entries: Seq<SourceEntry>) -> Option<Seq<char>> {
    match record.value {
        Some(v) => match v.kind {
            HirExprKind::Pipeline { input, stages } => if exec_convertible(*input) {
                match crate::wiring::first_some(stages@, super::app_ir::hold_of()) {
                    Some((_, body)) => exec_then(body, entries),
                    None => None,
                }
            } else {
                None
            },
            _ => None,
        },
        None => None,
    }
}

/// The handler of a held record: `initial |> HOLD state { source |> THEN
/// { value } }` gives the source, the initial value and the new value.
#[verifier::loop_isolation(false)]
pub fn executable_hold_handler_from_record(record: &HirRecord, state_path: &String, sources: &SourceInventory) -> (r: Option<(String, ExecExpr, ExecExpr)>)
    ensures
        r matches Some((p, i, v)) ==> in_inventory(sources.entries@, p@) && exec_sources_in(i, sources.entries@)
            && exec_sources_in(v, sources.entries@),
        match r {
            Some((p, _, _)) => hold_handler_source(*record, sources.entries@) == Some(p@),
            None => hold_handler_source(*record, sources.entries@) is None,
        },
{
    let expr = match &record.value {
        Some(v) => v,
        None => return None,
    };
    let (input, stages) = match pipeline_parts(expr) {
        Some(p) => p,
        None => return None,
    };
    let initial = match exec_expr_from_hir(input, None, sources) {
        Some(x) => x,
        None => return None,
    };
    let mut i: usize = 0;
    while i < stages.len()
        invariant
            i <= stages@.len(),
            exec_sources_in(initial, sources.entries@),
            crate::wiring::first_some(stages@.take(i as int), super::app_ir::hold_of()) is None,
        decreases stages.len() - i,
    {
        proof {
            crate::wiring::lemma_first_some_step(stages@, super::app_ir::hold_of(), i as int);
        }
        match hold_stage(&stages[i]) {
            Some((name, body)) => {
                proof {
                    crate::wiring::lemma_first_some_prefix(stages@, super::app_ir::hold_of(), i + 1);
                }
                return match executable_source_then_expr(body, name, state_path, sources) {
                    Some((source_path, value)) => Some((source_path, initial, value)),
                    None => None,
                };
            },
            None => {},
        }
        i = i + 1;
    }
    proof {
        crate::wiring::lemma_first_some_all(stages@, super::app_ir::hold_of());
    }
    None
}

/// The executable IR is sound against the inventory: one handler per state
/// slot, each setting that slot, on a source of the inventory, with every
/// source it reads in the inventory.
pub open spec fn exec_ir_sound(x: ExecutableIr, entries: Seq<SourceEntry>) -> bool {
    &&& x.state_slots@.len() == x.source_handlers@.len()
    &&& forall|i: int| 0 <= i < x.source_handlers@.len() ==> {
        let h = #[trigger] x.source_handlers@[i];
        &&& in_inventory(entries, h.source_path@)
        &&& h.effects@.len() == 1
        &&& h.effects@[0] matches ExecEffect::SetState { path, value } && path@ == x.state_slots@[i].path@
            && exec_sources_in(value, entries)
        &&& exec_sources_in(x.state_slots@[i].initial, entries)
    }
    &&& (x.scene matches Some(n) ==> tree_backed(n, entries))
}

/// The state path and source of each state slot, with its handler.
pub open spec fn slot_pairs(x: ExecutableIr) -> Seq<(Seq<char>, Seq<char>)> {
    Seq::new(x.state_slots@.len(), |i: int| (x.state_slots@[i].path@, x.source_handlers@[i].source_path@))
}

/// The state path of a record: its key, under a parent its parent's path,
/// a dot and its key.
pub open spec fn child_state_path(parent: Option<Seq<char>>, key: Seq<char>) -> Seq<char> {
    match parent {
        Some(p) => p + "."@ + key,
        None => key,
    }
}

/// The held records of `record` (whose state path is `path`) and of its
/// children, depth first, each with its state path and handler source.
pub open spec fn hold_slots(record: HirRecord, path: Seq<char>, entries: Seq<SourceEntry>) -> Seq<(Seq<char>, Seq<char>)>
    decreases record, 1int,
{
    let own = match hold_handler_source(record, entries) {
        Some(p) => seq![(path, p)],
        None => Seq::empty(),
    };
    proof {
        assert(decreases_to!(record => record.children));
        assert(decreases_to!(record.children => record.children@));
    }
    own + hold_slots_children(record.children@, path, entries)
}

/// `hold_slots` of each child in turn, under the parent path `parent`.
pub open spec fn hold_slots_children(s: Seq<HirRecord>, parent: Seq<char>, entries: Seq<SourceEntry>) -> Seq<(Seq<char>, Seq<char>)>
    decreases s, 0int,
{
    if s.len() == 0 {
        Seq::empty()
    } else {
        proof {
            assert(decreases_to!(s => s[s.len() - 1]));
        }
        hold_slots_children(s.drop_last(), parent, entries) + hold_slots(
            s[s.len() - 1],
            child_state_path(Some(parent), s[s.len() - 1].key@),
            entries,
        )
    }
}

/// The held records of the module's top-level records, in order.
pub open spec fn module_hold_slots(items: Seq<HirItem>, entries: Seq<SourceEntry>) -> Seq<(Seq<char>, Seq<char>)>
    decreases items.len(),
{
    if items.len() == 0 {
        Seq::empty()
    } else {
        module_hold_slots(items.drop_last(), entries) + match items.last() {
            HirItem::Record(r) => hold_slots(r, r.key@, entries),
            _ => Seq::empty(),
        }
    }
}

/// Adds the handlers of a record and of its children, each child's state
/// path being its parent's path, a dot and its key.
pub fn push_executable_hold_handlers(executable: &mut ExecutableIr, record: &HirRecord, parent: Option<&String>, sources: &SourceInventory)
    requires
        exec_ir_sound(*old(executable), sources.entries@),
    ensures
        exec_ir_sound(*final(executable), sources.entries@),
        final(executable).scene == old(executable).scene,
        slot_pairs(*final(executable)) == slot_pairs(*old(executable)) + hold_slots(
            *record,
            child_state_path(
                match parent {
                    Some(p) => Some(p@),
                    None => None,
                },
                record.key@,
            ),
            sources.entries@,
        ),
    decreases record,
{
    let ghost entries = sources.entries@;
    let ghost s0 = slot_pairs(*executable);
    let state_path = match parent {
        Some(p) => {
            let mut v = chars_of_string(p);
            push_str(&mut v, ".");
            push_all(&mut v, &chars_of_string(&record.key));
            string_of(&v)
        },
        None => record.key.clone(),
    };
    assert(state_path@ == child_state_path(
        match parent {
            Some(p) => Some(p@),
            None => None,
        },
        record.key@,
    ));
    let ghost own = match hold_handler_source(*record, entries) {
        Some(p) => seq![(state_path@, p)],
        None => Seq::<(Seq<char>, Seq<char>)>::empty(),
    };
    match executable_hold_handler_from_record(record, &state_path, sources) {
        Some((source_path, initial, value)) => {
            let ghost before = *executable;
            let ghost sp = source_path@;
            executable.state_slots.push(ExecStateSlot { path: state_path.clone(), initial });
            let mut effects: Vec<ExecEffect> = Vec::new();
            effects.push(ExecEffect::SetState { path: state_path.clone(), value });
            executable.source_handlers.push(ExecSourceHandler { source_path, effects });
            proof {
                assert forall|i: int| 0 <= i < executable.source_handlers@.len() implies {
                    let h = #[trigger] executable.source_handlers@[i];
                    &&& in_inventory(sources.entries@, h.source_path@)
                    &&& h.effects@.len() == 1
                    &&& h.effects@[0] matches ExecEffect::SetState { path, value } && path@ == executable.state_slots@[i].path@
                        && exec_sources_in(value, sources.entries@)
                    &&& exec_sources_in(executable.state_slots@[i].initial, sources.entries@)
                } by {
                    if i < before.source_handlers@.len() {
                        assert(executable.source_handlers@[i] == before.source_handlers@[i]);
                        assert(executable.state_slots@[i] == before.state_slots@[i]);
                    }
                }
                assert(slot_pairs(*executable) =~= slot_pairs(before).push((state_path@, sp)));
                assert(slot_pairs(*executable) =~= s0 + own);
            }
        },
        None => {
            assert(slot_pairs(*executable) =~= s0 + own);
        },
    }
    let mut i: usize = 0;
    assert(record.children@.take(0) =~= Seq::<HirRecord>::empty());
    assert(slot_pairs(*executable) =~= s0 + own + hold_slots_children(record.children@.take(0), state_path@, entries));
    while i < record.children.len()
        invariant
            i <= record.children@.len(),
            entries == sources.entries@,
            exec_ir_sound(*executable, sources.entries@),
            executable.scene == old(executable).scene,
            slot_pairs(*executable) == s0 + own + hold_slots_children(record.children@.take(i as int), state_path@, entries),
        decreases record.children.len() - i,
    {
        proof {
            assert(decreases_to!(record.children@ => record.children@[i as int]));
        }
        push_executable_hold_handlers(executable, &record.children[i], Some(&state_path), sources);
        proof {
            assert(record.children@.take(i + 1).drop_last() =~= record.children@.take(i as int));
        }
        assert(slot_pairs(*executable) =~= s0 + own + hold_slots_children(record.children@.take(i + 1), state_path@, entries));
        i = i + 1;
    }
    assert(record.children@.take(record.children@.len() as int) =~= record.children@);
}

/// The executable IR of a module: the render tree as its scene, and the
/// handlers of its held records, depth first.
/// What the executable IR of a module is: sound against the inventory,
/// its scene there exactly when the module has a document root, and one
/// slot with its handler per held record, depth first.
pub open spec fn exec_ir_result(r: ExecutableIr, hir: HirModule, entries: Seq<SourceEntry>) -> bool {
    &&& exec_ir_sound(r, entries)
    &&& (r.scene is Some <==> super::render::document_root(hir) is Some)
    &&& super::render::tree_result(r.scene, hir, entries)
    &&& slot_pairs(r) == module_hold_slots(hir.items@, entries)
}

pub fn executable_ir_from_hir(hir: &HirModule, sources: &SourceInventory) -> (r: ExecutableIr)
    ensures
        exec_ir_sound(r, sources.entries@),
        r.scene is Some <==> super::render::document_root(*hir) is Some,
        super::render::tree_result(r.scene, *hir, sources.entries@),
        slot_pairs(r) == module_hold_slots(hir.items@, sources.entries@),
{
    let scene = render_tree_from_hir(hir, sources);
    let mut executable = ExecutableIr { state_slots: Vec::new(), source_handlers: Vec::new(), scene };
    let ghost entries = sources.entries@;
    let mut i: usize = 0;
    assert(hir.items@.take(0) =~= Seq::<HirItem>::empty());
    assert(slot_pairs(executable) =~= module_hold_slots(hir.items@.take(0), entries));
    while i < hir.items.len()
        invariant
            i <= hir.items@.len(),
            entries == sources.entries@,
            exec_ir_sound(executable, sources.entries@),
            executable.scene is Some <==> super::render::document_root(*hir) is Some,
            super::render::tree_result(executable.scene, *hir, sources.entries@),
            slot_pairs(executable) == module_hold_slots(hir.items@.take(i as int), entries),
        decreases hir.items.len() - i,
    {
        let ghost before = slot_pairs(executable);
        match &hir.items[i] {
            HirItem::Record(record) => push_executable_hold_handlers(&mut executable, record, None, sources),
            _ => {},
        }
        proof {
            assert(hir.items@.take(i + 1).drop_last() =~= hir.items@.take(i as int));
        }
        assert(slot_pairs(executable) =~= module_hold_slots(hir.items@.take(i + 1), entries));
        i = i + 1;
    }
    assert(hir.items@.take(hir.items@.len() as int) =~= hir.items@);
    executable
}

} // verus!
