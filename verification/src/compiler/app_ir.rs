//! The app IR of a module: its counters, collections, static records and
//! the event handlers that change them, with the render tree.
use vstd::prelude::*;
use crate::hir::{
    HirCallArg, HirExpr, HirExprKind, HirFunction, HirItem, HirListOp, HirModule, HirRecord,
};
use crate::source::{SourceEntry, SourceInventory};
use crate::text::{chars_of, chars_of_string, ends_with, has_prefix, has_suffix, push_all, push_str, str_eq, string_eq, string_of};
use super::{
    AppIr, IrCollectionFieldAssignment, IrCollectionPredicate, IrCollectionSeed, IrCollectionState,
    IrCollectionValueExpr, IrEffect, IrEventHandler, IrPredicate, IrStateCell, IrStaticField, IrStaticRecord,
    IrStaticValue, IrValueExpr,
};
use super::hirq::{
    add_step_expr, collect_expr_paths, first_path_in_expr, hir_child_record, hir_function, hir_record,
    hold_stage, named_arg, number_literal, path_expr, pipeline_parts, then_body,
};
use super::reads::views;
use super::dedupe::{handler_eq, lemma_same_handler_refl, lemma_same_handler_sym, same_handler};
use super::render::{render_tree_from_hir, tree_backed};
use super::resolve::{existing_source_path, in_inventory, resolve_source_path};
use super::statics::{
    literal_record_fields, literal_record_fields_with_env, static_value_from_expr, static_value_from_expr_with_env,
    static_value_from_record_with_env,
};

verus! {

/// The app IR is sound against the inventory: every event handler listens
/// to a source of the inventory, and the render tree is backed by it.
pub open spec fn app_ir_sound(ir: AppIr, entries: Seq<SourceEntry>) -> bool {
    &&& forall|i: int| 0 <= i < ir.event_handlers@.len() ==> in_inventory(entries, (#[trigger] ir.event_handlers@[i]).source_path@)
    &&& (ir.render_tree matches Some(n) ==> tree_backed(n, entries))
}

// ---------------------------------------------------------------------------
// Collections
// ---------------------------------------------------------------------------

/// A list literal, or a pipeline from one or through a list operation.
pub open spec fn list_pipeline(e: HirExpr) -> bool
    decreases e,
{
    match e.kind {
        HirExprKind::List { .. } => true,
        HirExprKind::Pipeline { input, stages } => list_pipeline(*input) || exists|i: int|
            0 <= i < stages@.len() && #[trigger] list_stage(stages@[i]),
        _ => false,
    }
}

/// A stage that is a known list operation.
pub open spec fn list_stage(e: HirExpr) -> bool {
    match e.kind {
        HirExprKind::ListCall { op, .. } => !(op is Unknown),
        _ => false,
    }
}

#[verifier::loop_isolation(false)]
pub fn matches_list_pipeline(e: &HirExpr) -> (r: bool)
    ensures
        r == list_pipeline(*e),
    decreases e,
{
    match &e.kind {
        HirExprKind::List { .. } => true,
        HirExprKind::Pipeline { input, stages } => {
            if matches_list_pipeline(input) {
                return true;
            }
            let mut i: usize = 0;
            while i < stages.len()
                invariant
                    i <= stages@.len(),
                    forall|j: int| 0 <= j < i ==> !#[trigger] list_stage(stages@[j]),
                decreases stages.len() - i,
            {
                match &stages[i].kind {
                    HirExprKind::ListCall { op, .. } => {
                        match op {
                            HirListOp::Unknown { .. } => {},
                            _ => {
                                assert(list_stage(stages@[i as int]));
                                return true;
                            },
                        }
                    },
                    _ => {},
                }
                i = i + 1;
            }
            false
        },
        _ => false,
    }
}

/// The record's value is a list pipeline.
pub fn record_value_is_list(record: &HirRecord) -> (r: bool)
    ensures
        r == (record.value matches Some(v) && list_pipeline(v)),
{
    match &record.value {
        Some(v) => matches_list_pipeline(v),
        None => false,
    }
}

/// The static values of the call arguments that have one, by name; a
/// later argument of a name overrides an earlier one.
pub open spec fn args_env(args: Seq<HirCallArg>) -> Map<Seq<char>, super::statics::StaticModel>
    decreases args.len(),
{
    if args.len() == 0 {
        Map::empty()
    } else {
        match super::statics::static_of(args.last().value) {
            Some(v) => args_env(args.drop_last()).insert(args.last().name@, v),
            None => args_env(args.drop_last()),
        }
    }
}

/// The fields that a call of `function` builds: those of its record body,
/// with the arguments' static values standing for their names.
pub open spec fn call_fields(function: HirFunction, args: Seq<HirCallArg>) -> Option<Seq<(Seq<char>, super::statics::StaticModel)>> {
    match function.body.kind {
        HirExprKind::Record { entries } => Some(super::statics::fields_env(entries@, args_env(args))),
        _ => None,
    }
}

/// The record fields of an item that a function call builds: the
/// function's record body, its paths standing for the call's arguments.
pub fn record_fields_from_function_call(function: &HirFunction, args: &Vec<HirCallArg>) -> (r: Option<Vec<IrStaticField>>)
    ensures
        r is Some <==> function.body.kind is Record,
        match r {
            Some(v) => call_fields(*function, args@) == Some(super::statics::fields_model(v@)),
            None => call_fields(*function, args@) is None,
        },
{
    let entries = match &function.body.kind {
        HirExprKind::Record { entries } => entries,
        _ => return None,
    };
    let mut env: Vec<(String, IrStaticValue)> = Vec::new();
    let mut i: usize = 0;
    while i < args.len()
        invariant
            i <= args@.len(),
            super::statics::env_map(env@) == args_env(args@.take(i as int)),
        decreases args.len() - i,
    {
        assert(args@.take(i + 1).drop_last() =~= args@.take(i as int));
        match static_value_from_expr(&args[i].value) {
            Some(v) => {
                let ghost e0 = env@;
                env.push((args[i].name.clone(), v));
                assert(env@.drop_last() =~= e0);
            },
            None => {},
        }
        i = i + 1;
    }
    assert(args@.take(args@.len() as int) =~= args@);
    Some(literal_record_fields_with_env(entries, &env))
}

/// The fields of a seed item: those of the record that a call of the
/// module's first function so named builds, or of a record literal; none
/// otherwise.
pub open spec fn seed_fields(e: HirExpr, items: Seq<HirItem>) -> Seq<(Seq<char>, super::statics::StaticModel)> {
    match e.kind {
        HirExprKind::FunctionCall { path, args } => match super::hirq::first_function(items, path@) {
            Some(f) => match call_fields(f, args@) {
                Some(x) => x,
                None => Seq::empty(),
            },
            None => Seq::empty(),
        },
        HirExprKind::Record { entries } => super::statics::static_fields_of(entries@),
        _ => Seq::empty(),
    }
}

/// The fields of one seed item of a collection: a call of a record
/// function, or a record literal.
pub fn collection_seed_fields_from_expr(e: &HirExpr, hir: &HirModule) -> (r: Vec<IrStaticField>)
    ensures
        super::statics::fields_model(r@) == seed_fields(*e, hir.items@),
{
    proof {
        assert(super::statics::fields_model(Seq::<IrStaticField>::empty()) =~= Seq::<(Seq<char>, super::statics::StaticModel)>::empty());
    }
    match &e.kind {
        HirExprKind::FunctionCall { path, args } => {
            match hir_function(hir, path) {
                Some(f) => match record_fields_from_function_call(f, args) {
                    Some(fields) => fields,
                    None => Vec::new(),
                },
                None => Vec::new(),
            }
        },
        HirExprKind::Record { entries } => literal_record_fields(entries),
        _ => Vec::new(),
    }
}

/// The items a collection starts with: one seed per item of its list
/// literal (directly, or as the input of a pipeline).
pub fn initial_list_seeds(e: &HirExpr, hir: &HirModule) -> (r: Option<Vec<IrCollectionSeed>>)
    ensures
        match e.kind {
            HirExprKind::List { items } => r matches Some(s) && s@.len() == items@.len(),
            HirExprKind::Pipeline { input, .. } => match input.kind {
                HirExprKind::List { items } => r matches Some(s) && s@.len() == items@.len(),
                _ => r is None,
            },
            _ => r is None,
        },
{
    let items = match &e.kind {
        HirExprKind::List { items } => items,
        HirExprKind::Pipeline { input, .. } => match &input.kind {
            HirExprKind::List { items } => items,
            _ => return None,
        },
        _ => return None,
    };
    let mut out: Vec<IrCollectionSeed> = Vec::new();
    let mut i: usize = 0;
    while i < items.len()
        invariant
            i <= items@.len(),
            out@.len() == i,
        decreases items.len() - i,
    {
        out.push(IrCollectionSeed { fields: collection_seed_fields_from_expr(&items[i], hir) });
        i = i + 1;
    }
    Some(out)
}

/// The number of items of a list literal, directly or as a pipeline's
/// input.
pub open spec fn seeded_items(e: HirExpr) -> Option<nat> {
    match e.kind {
        HirExprKind::List { items } => Some(items@.len()),
        HirExprKind::Pipeline { input, .. } => match input.kind {
            HirExprKind::List { items } => Some(items@.len()),
            _ => None,
        },
        _ => None,
    }
}

/// Adds the collection a record's list value starts as.
pub fn push_collection_state_from_hir_record(ir: &mut AppIr, hir: &HirModule, record: &HirRecord)
    ensures
        final(ir).event_handlers == old(ir).event_handlers,
        final(ir).render_tree == old(ir).render_tree,
        final(ir).state_cells == old(ir).state_cells,
        final(ir).static_records == old(ir).static_records,
        match record.value {
            Some(v) => match seeded_items(v) {
                Some(n) => final(ir).collection_states@.len() == old(ir).collection_states@.len() + 1
                    && final(ir).collection_states@.take(old(ir).collection_states@.len() as int) == old(ir).collection_states@
                    && final(ir).collection_states@.last().path@ == record.key@
                    && final(ir).collection_states@.last().initial_entries@.len() == n,
                None => final(ir).collection_states == old(ir).collection_states,
            },
            None => final(ir).collection_states == old(ir).collection_states,
        },
{
    let expr = match &record.value {
        Some(v) => v,
        None => return,
    };
    match initial_list_seeds(expr, hir) {
        Some(entries) => {
            ir.collection_states.push(IrCollectionState { path: record.key.clone(), initial_entries: entries });
            assert(ir.collection_states@.take(old(ir).collection_states@.len() as int) =~= old(ir).collection_states@);
        },
        None => {},
    }
}

/// The static fields of a record: those of its children, or, without
/// children, its own static value under `value`.
pub open spec fn record_static_fields(record: HirRecord) -> Seq<(Seq<char>, super::statics::StaticModel)> {
    if record.children@.len() == 0 {
        match record.value {
            Some(v) => match super::statics::static_of(v) {
                Some(m) => seq![("value"@, m)],
                None => Seq::empty(),
            },
            None => Seq::empty(),
        }
    } else {
        super::statics::static_fields_of(record.children@)
    }
}

/// Adds a top-level record other than `store` and `document` as a static
/// record: its children's static fields, or its own static value under
/// `value`; a record with none is left out.
pub fn push_static_record_from_hir_record(ir: &mut AppIr, record: &HirRecord)
    ensures
        final(ir).event_handlers == old(ir).event_handlers,
        final(ir).render_tree == old(ir).render_tree,
        final(ir).state_cells == old(ir).state_cells,
        final(ir).collection_states == old(ir).collection_states,
        if record.key@ == "store"@ || record.key@ == "document"@ || record_static_fields(*record).len() == 0 {
            final(ir).static_records == old(ir).static_records
        } else {
            &&& final(ir).static_records@.len() == old(ir).static_records@.len() + 1
            &&& final(ir).static_records@.take(old(ir).static_records@.len() as int) == old(ir).static_records@
            &&& final(ir).static_records@.last().path@ == record.key@
            &&& super::statics::fields_model(final(ir).static_records@.last().fields@) == record_static_fields(*record)
        },
{
    if str_eq(&record.key, "store") || str_eq(&record.key, "document") {
        return;
    }
    let fields = if record.children.len() == 0 {
        match &record.value {
            Some(v) => match static_value_from_expr(v) {
                Some(value) => {
                    let mut f: Vec<IrStaticField> = Vec::new();
                    f.push(IrStaticField { key: "value".to_owned(), value });
                    assert(super::statics::fields_model(f@) =~= record_static_fields(*record));
                    f
                },
                None => {
                    let f: Vec<IrStaticField> = Vec::new();
                    assert(super::statics::fields_model(f@) =~= record_static_fields(*record));
                    f
                },
            },
            None => {
                let f: Vec<IrStaticField> = Vec::new();
                assert(super::statics::fields_model(f@) =~= record_static_fields(*record));
                f
            },
        }
    } else {
        literal_record_fields(&record.children)
    };
    assert(super::statics::fields_model(fields@) == record_static_fields(*record));
    if fields.len() == 0 {
        return;
    }
    ir.static_records.push(IrStaticRecord { path: record.key.clone(), fields });
    assert(ir.static_records@.take(old(ir).static_records@.len() as int) =~= old(ir).static_records@);
}

// ---------------------------------------------------------------------------
// Counters
// ---------------------------------------------------------------------------

/// The body of a `THEN` stage.
pub open spec fn then_of() -> spec_fn(HirExpr) -> Option<HirExpr> {
    |s: HirExpr| match s.kind {
        HirExprKind::Then { body } => Some(*body),
        _ => None,
    }
}

/// The held state and body of a `HOLD` stage.
pub open spec fn hold_of() -> spec_fn(HirExpr) -> Option<(Seq<char>, HirExpr)> {
    |s: HirExpr| match s.kind {
        HirExprKind::Hold { state, body } => Some((state@, *body)),
        _ => None,
    }
}

/// The resolved source and the step of a counter's body: `source |> THEN
/// { state + n }` with the first `THEN` stage adding a number to `state`,
/// or the first such branch of a `LATEST`.
pub open spec fn counter_step(e: HirExpr, state: Seq<char>, entries: Seq<SourceEntry>) -> Option<(Seq<char>, i64)>
    decreases e, 1int,
{
    match e.kind {
        HirExprKind::Pipeline { input, stages } => match super::hirq::path_of(*input) {
            Some(p) => match super::resolve::resolved_source(entries, p) {
                Some(src) => match crate::wiring::first_some(stages@, then_of()) {
                    Some(body) => match super::hirq::add_step_of(body, state) {
                        Some(n) => Some((src, n)),
                        None => None,
                    },
                    None => None,
                },
                None => None,
            },
            None => None,
        },
        HirExprKind::Latest { branches } => branch_steps(branches@, state, entries),
        _ => None,
    }
}

/// The first branch that [`counter_step`] finds a step in.
pub open spec fn branch_steps(bs: Seq<HirExpr>, state: Seq<char>, entries: Seq<SourceEntry>) -> Option<(Seq<char>, i64)>
    decreases bs, 0int,
{
    if bs.len() == 0 {
        None
    } else {
        proof {
            assert(decreases_to!(bs => bs[bs.len() - 1]));
        }
        match branch_steps(bs.drop_last(), state, entries) {
            Some(x) => Some(x),
            None => counter_step(bs[bs.len() - 1], state, entries),
        }
    }
}

/// The view of a found source and step.
pub open spec fn step_view(r: Option<(String, i64)>) -> Option<(Seq<char>, i64)> {
    match r {
        Some((p, n)) => Some((p@, n)),
        None => None,
    }
}

/// The source and step of a counter: `source |> THEN { state + n }`, or
/// the first such branch of a `LATEST`.
#[verifier::loop_isolation(false)]
pub fn source_then_add_step(e: &HirExpr, state: &String, sources: &SourceInventory) -> (r: Option<(String, i64)>)
    ensures
        r matches Some((p, _)) ==> in_inventory(sources.entries@, p@),
        step_view(r) == counter_step(*e, state@, sources.entries@),
    decreases e, 1int,
{
    match &e.kind {
        HirExprKind::Pipeline { input, stages } => {
            let event_path = match path_expr(input) {
                Some(p) => match resolve_source_path(sources, &chars_of_string(p)) {
                    Some(s) => s,
                    None => return None,
                },
                None => return None,
            };
            let mut i: usize = 0;
            while i < stages.len()
                invariant
                    i <= stages@.len(),
                    in_inventory(sources.entries@, event_path@),
                    crate::wiring::first_some(stages@.take(i as int), then_of()) is None,
                decreases stages.len() - i,
            {
                proof {
                    crate::wiring::lemma_first_some_step(stages@, then_of(), i as int);
                }
                match then_body(&stages[i]) {
                    Some(body) => {
                        proof {
                            crate::wiring::lemma_first_some_prefix(stages@, then_of(), i + 1);
                        }
                        return match add_step_expr(body, state) {
                            Some(step) => Some((event_path, step)),
                            None => None,
                        };
                    },
                    None => {},
                }
                i = i + 1;
            }
            proof {
                crate::wiring::lemma_first_some_all(stages@, then_of());
            }
            None
        },
        HirExprKind::Latest { branches } => add_step_in_branches(branches, state, sources),
        _ => None,
    }
}

fn add_step_in_branches(branches: &Vec<HirExpr>, state: &String, sources: &SourceInventory) -> (r: Option<(String, i64)>)
    ensures
        r matches Some((p, _)) ==> in_inventory(sources.entries@, p@),
        step_view(r) == branch_steps(branches@, state@, sources.entries@),
    decreases branches@, 0int,
{
    let mut i: usize = 0;
    while i < branches.len()
        invariant
            i <= branches@.len(),
            branch_steps(branches@.take(i as int), state@, sources.entries@) is None,
        decreases branches.len() - i,
    {
        proof {
            assert(decreases_to!(branches@ => branches@[i as int]));
            assert(branches@.take(i + 1).drop_last() =~= branches@.take(i as int));
        }
        match source_then_add_step(&branches[i], state, sources) {
            Some(found) => {
                proof {
                    lemma_branch_steps_prefix(branches@, state@, sources.entries@, i + 1);
                }
                return Some(found);
            },
            None => {},
        }
        i = i + 1;
    }
    assert(branches@.take(branches@.len() as int) =~= branches@);
    None
}

proof fn lemma_branch_steps_prefix(bs: Seq<HirExpr>, state: Seq<char>, entries: Seq<SourceEntry>, k: int)
    requires
        0 <= k <= bs.len(),
        branch_steps(bs.take(k), state, entries) is Some,
    ensures
        branch_steps(bs, state, entries) == branch_steps(bs.take(k), state, entries),
    decreases bs.len() - k,
{
    if k < bs.len() {
        assert(bs.take(k + 1).drop_last() =~= bs.take(k));
        lemma_branch_steps_prefix(bs, state, entries, k + 1);
    } else {
        assert(bs.take(k) =~= bs);
    }
}

/// A counter record: `n |> HOLD state { body }` whose body gives a source
/// and a step, unless that source is a frame event.
pub open spec fn accumulator_of(record: HirRecord, entries: Seq<SourceEntry>) -> Option<(Seq<char>, i64, i64)> {
    match record.value {
        Some(v) => match v.kind {
            HirExprKind::Pipeline { input, stages } => match super::hirq::number_of(*input) {
                Some(initial) => match crate::wiring::first_some(stages@, hold_of()) {
                    Some((name, body)) => match counter_step(body, name, entries) {
                        Some((p, step)) => if has_suffix(p, ".event.frame"@) { None } else { Some((p, initial, step)) },
                        None => None,
                    },
                    None => None,
                },
                None => None,
            },
            _ => None,
        },
        None => None,
    }
}

/// A counter: `n |> HOLD state { source |> THEN { state + step } }` gives
/// the source, the initial value and the step; counters on frame events
/// are left to the runtime.
#[verifier::loop_isolation(false)]
pub fn accumulator_from_hir_record(record: &HirRecord, sources: &SourceInventory) -> (r: Option<(String, i64, i64)>)
    ensures
        r matches Some((p, _, _)) ==> in_inventory(sources.entries@, p@),
        match r {
            Some((p, i, s)) => accumulator_of(*record, sources.entries@) == Some((p@, i, s)),
            None => accumulator_of(*record, sources.entries@) is None,
        },
{
    let expr = match &record.value {
        Some(v) => v,
        None => return None,
    };
    let (input, stages) = match pipeline_parts(expr) {
        Some(p) => p,
        None => return None,
    };
    let initial = match number_literal(input) {
        Some(n) => n,
        None => return None,
    };
    let mut i: usize = 0;
    while i < stages.len()
        invariant
            i <= stages@.len(),
            crate::wiring::first_some(stages@.take(i as int), hold_of()) is None,
        decreases stages.len() - i,
    {
        proof {
            crate::wiring::lemma_first_some_step(stages@, hold_of(), i as int);
        }
        match hold_stage(&stages[i]) {
            Some((name, body)) => {
                proof {
                    crate::wiring::lemma_first_some_prefix(stages@, hold_of(), i + 1);
                }
                let (event_path, step) = match source_then_add_step(body, name, sources) {
                    Some(x) => x,
                    None => return None,
                };
                let v = chars_of_string(&event_path);
                if ends_with(&v, &chars_of(".event.frame")) {
                    return None;
                }
                return Some((event_path, initial, step));
            },
            None => {},
        }
        i = i + 1;
    }
    proof {
        crate::wiring::lemma_first_some_all(stages@, hold_of());
    }
    None
}

/// Whether `h` adds `step` to the held state `key` when source `path`
/// fires.
pub open spec fn accumulator_handler(h: IrEventHandler, key: Seq<char>, path: Seq<char>, step: i64) -> bool {
    &&& h.source_path@ == path
    &&& h.when is None
    &&& h.effects@.len() == 1
    &&& match h.effects@[0] {
        IrEffect::Assign { state_path, expr } => state_path@ == key && match expr {
            IrValueExpr::Add { left, right } => match *left {
                IrValueExpr::Hold { state_path: s } => s@ == key && match *right {
                    IrValueExpr::Number { value } => value == step,
                    _ => false,
                },
                _ => false,
            },
            _ => false,
        },
        _ => false,
    }
}

/// Adds a counter: its state cell, and the handler that adds its step when
/// its source fires.
pub fn push_accumulator_ir(ir: &mut AppIr, event_path: &String, state_path: &String, initial: i64, step: i64)
    ensures
        final(ir).event_handlers@ == old(ir).event_handlers@.push(final(ir).event_handlers@.last()),
        final(ir).event_handlers@.last().source_path@ == event_path@,
        accumulator_handler(final(ir).event_handlers@.last(), state_path@, event_path@, step),
        final(ir).render_tree == old(ir).render_tree,
        final(ir).state_cells@.len() == old(ir).state_cells@.len() + 1,
        final(ir).state_cells@.take(old(ir).state_cells@.len() as int) == old(ir).state_cells@,
        final(ir).state_cells@.last().path@ == state_path@,
        final(ir).state_cells@.last().initial == (IrValueExpr::Number { value: initial }),
        final(ir).collection_states == old(ir).collection_states,
        final(ir).static_records == old(ir).static_records,
{
    ir.state_cells.push(IrStateCell { path: state_path.clone(), initial: IrValueExpr::Number { value: initial } });
    let mut effects: Vec<IrEffect> = Vec::new();
    effects.push(IrEffect::Assign {
        state_path: state_path.clone(),
        expr: IrValueExpr::Add {
            left: Box::new(IrValueExpr::Hold { state_path: state_path.clone() }),
            right: Box::new(IrValueExpr::Number { value: step }),
        },
    });
    ir.event_handlers.push(IrEventHandler { source_path: event_path.clone(), when: None, effects });
    assert(ir.state_cells@.take(old(ir).state_cells@.len() as int) =~= old(ir).state_cells@);
}

// ---------------------------------------------------------------------------
// Event handlers
// ---------------------------------------------------------------------------

/// Adds a handler that listens to a source of the inventory.
fn push_handler(ir: &mut AppIr, h: IrEventHandler, Ghost(entries): Ghost<Seq<SourceEntry>>)
    requires
        app_ir_sound(*old(ir), entries),
        in_inventory(entries, h.source_path@),
    ensures
        app_ir_sound(*final(ir), entries),
        final(ir).render_tree == old(ir).render_tree,
        final(ir).event_handlers@ == old(ir).event_handlers@.push(h),
        same_but_handlers(*old(ir), *final(ir)),
        forall|n: int| 0 <= n <= old(ir).event_handlers@.len() ==> #[trigger] final(ir).event_handlers@.take(n) == old(ir).event_handlers@.take(n),
{
    ir.event_handlers.push(h);
    assert forall|i: int| 0 <= i < ir.event_handlers@.len() implies in_inventory(entries, (#[trigger] ir.event_handlers@[i]).source_path@) by {
        if i < old(ir).event_handlers@.len() {
            assert(ir.event_handlers@[i] == old(ir).event_handlers@[i]);
        }
    }
    assert forall|n: int| 0 <= n <= old(ir).event_handlers@.len() implies #[trigger] ir.event_handlers@.take(n) == old(ir).event_handlers@.take(n) by {
        assert(ir.event_handlers@.take(n) =~= old(ir).event_handlers@.take(n));
    }
}

/// A path's resolved source where the inventory holds it as a text.
pub open spec fn text_source_of(entries: Seq<SourceEntry>) -> spec_fn(Seq<char>) -> Option<Seq<char>> {
    |p: Seq<char>| match super::resolve::resolved_source(entries, p) {
        Some(x) => if exists|k: int| 0 <= k < entries.len() && entries[k].path@ == x && (#[trigger] entries[k].shape)@ is Text {
            Some(x)
        } else {
            None
        },
        None => None,
    }
}

/// The first path of `e` that resolves to a text source, resolved.
pub fn first_text_source_in_expr(e: &HirExpr, sources: &SourceInventory) -> (r: Option<String>)
    ensures
        r matches Some(p) ==> in_inventory(sources.entries@, p@),
        opt_string_view(r) == crate::wiring::first_some(super::hirq::expr_paths(*e), text_source_of(sources.entries@)),
{
    let mut paths: Vec<String> = Vec::new();
    collect_expr_paths(e, &mut paths);
    let ghost ps = super::hirq::expr_paths(*e);
    let ghost f = text_source_of(sources.entries@);
    assert(views(paths@) =~= ps);
    assert(ps.len() == paths@.len());
    let mut i: usize = 0;
    while i < paths.len()
        invariant
            i <= paths@.len(),
            views(paths@) == ps,
            ps == super::hirq::expr_paths(*e),
            f == text_source_of(sources.entries@),
            crate::wiring::first_some(ps.take(i as int), f) is None,
        decreases paths.len() - i,
    {
        proof {
            crate::wiring::lemma_first_some_step(ps, f, i as int);
            assert(ps[i as int] == paths@[i as int]@);
        }
        match resolve_source_path(sources, &chars_of_string(&paths[i])) {
            Some(resolved) => {
                assert(crate::wiring::first_some(ps.take(i + 1), f) == f(ps[i as int]));
                let mut k: usize = 0;
                while k < sources.entries.len()
                    invariant
                        k <= sources.entries@.len(),
                        in_inventory(sources.entries@, resolved@),
                        i < ps.len(),
                        ps.len() == paths@.len(),
                        views(paths@) == ps,
                        ps == super::hirq::expr_paths(*e),
            ps == super::hirq::expr_paths(*e),
                        f == text_source_of(sources.entries@),
                        crate::wiring::first_some(ps.take(i + 1), f) == f(ps[i as int]),
                        super::resolve::resolved_source(sources.entries@, ps[i as int]) == Some(resolved@),
                        forall|j: int| 0 <= j < k ==> !(sources.entries@[j].path@ == resolved@ && (#[trigger] sources.entries@[j].shape)@ is Text),
                    decreases sources.entries.len() - k,
                {
                    if string_eq(&sources.entries[k].path, &resolved) && sources.entries[k].shape.is_text() {
                        proof {
                            assert(sources.entries@[k as int].path@ == resolved@ && (sources.entries@[k as int].shape)@ is Text);
                            assert(f(ps[i as int]) == Some(resolved@));
                            crate::wiring::lemma_first_some_prefix(ps, f, i + 1);
                            assert(crate::wiring::first_some(ps, f) == Some(resolved@));
                        }
                        return Some(resolved);
                    }
                    k = k + 1;
                }
            },
            None => {
                assert(f(ps[i as int]) is None);
            },
        }
        assert(crate::wiring::first_some(ps.take(i + 1), f) is None) by {
            if crate::wiring::first_some(ps.take(i + 1), f) is Some {
                let x = super::resolve::resolved_source(sources.entries@, ps[i as int]);
                assert(x is Some);
            }
        }
        i = i + 1;
    }
    proof {
        crate::wiring::lemma_first_some_all(ps, f);
    }
    None
}

/// The view of an optional string.
pub open spec fn opt_string_view(o: Option<String>) -> Option<Seq<char>> {
    match o {
        Some(s) => Some(s@),
        None => None,
    }
}

/// The field after `item.` of a path.
pub open spec fn item_field_of() -> spec_fn(Seq<char>) -> Option<Seq<char>> {
    |p: Seq<char>| if has_prefix(p, "item."@) { Some(p.subrange(5, p.len() as int)) } else { None }
}

/// The field after `item.` in the first path of `e` that has one.
pub fn first_item_field_in_expr(e: &HirExpr) -> (r: Option<String>)
    ensures
        opt_string_view(r) == crate::wiring::first_some(super::hirq::expr_paths(*e), item_field_of()),
{
    let mut paths: Vec<String> = Vec::new();
    collect_expr_paths(e, &mut paths);
    let ghost ps = super::hirq::expr_paths(*e);
    assert(views(paths@) =~= ps);
    assert(ps.len() == paths@.len());
    proof {
        reveal_strlit("item.");
    }
    let mut i: usize = 0;
    while i < paths.len()
        invariant
            i <= paths@.len(),
            views(paths@) == ps,
            ps == super::hirq::expr_paths(*e),
            crate::wiring::first_some(ps.take(i as int), item_field_of()) is None,
        decreases paths.len() - i,
    {
        proof {
            crate::wiring::lemma_first_some_step(ps, item_field_of(), i as int);
            assert(ps[i as int] == paths@[i as int]@);
        }
        let v = chars_of_string(&paths[i]);
        match super::paths::strip_prefix_str(&v, "item.") {
            Some(t) => {
                proof {
                    reveal_strlit("item.");
                    assert(v@ == ps[i as int]);
                    assert(item_field_of()(ps[i as int]) == Some(t@));
                    crate::wiring::lemma_first_some_prefix(ps, item_field_of(), i + 1);
                }
                return Some(string_of(&t));
            },
            None => {
                assert(v@ == ps[i as int]);
                assert(item_field_of()(ps[i as int]) is None);
            },
        }
        i = i + 1;
    }
    proof {
        crate::wiring::lemma_first_some_all(ps, item_field_of());
    }
    None
}

/// A path's resolved source where it belongs to no dynamic family.
pub open spec fn static_source_of(entries: Seq<SourceEntry>) -> spec_fn(Seq<char>) -> Option<Seq<char>> {
    |p: Seq<char>| match super::resolve::resolved_source(entries, p) {
        Some(x) => if !crate::text::contains_seq(x, "[*]"@) { Some(x) } else { None },
        None => None,
    }
}

/// The first path of `e` that resolves to a static (not per-item) source,
/// resolved.
pub fn static_source_path_in_expr(sources: &SourceInventory, e: &HirExpr) -> (r: Option<String>)
    ensures
        r matches Some(p) ==> in_inventory(sources.entries@, p@),
        opt_string_view(r) == crate::wiring::first_some(super::hirq::expr_paths(*e), static_source_of(sources.entries@)),
{
    let mut paths: Vec<String> = Vec::new();
    collect_expr_paths(e, &mut paths);
    let ghost ps = super::hirq::expr_paths(*e);
    let ghost f = static_source_of(sources.entries@);
    assert(views(paths@) =~= ps);
    assert(ps.len() == paths@.len());
    let star = chars_of("[*]");
    let mut i: usize = 0;
    while i < paths.len()
        invariant
            i <= paths@.len(),
            views(paths@) == ps,
            ps == super::hirq::expr_paths(*e),
            star@ == "[*]"@,
            f == static_source_of(sources.entries@),
            crate::wiring::first_some(ps.take(i as int), f) is None,
        decreases paths.len() - i,
    {
        proof {
            crate::wiring::lemma_first_some_step(ps, f, i as int);
            assert(ps[i as int] == paths@[i as int]@);
        }
        match resolve_source_path(sources, &chars_of_string(&paths[i])) {
            Some(resolved) => {
                if !crate::text::contains(&chars_of_string(&resolved), &star) {
                    proof {
                        crate::wiring::lemma_first_some_prefix(ps, f, i + 1);
                    }
                    return Some(resolved);
                }
            },
            None => {},
        }
        i = i + 1;
    }
    proof {
        crate::wiring::lemma_first_some_all(ps, f);
    }
    None
}

/// The source a path expression resolves to.
pub fn item_source_path(sources: &SourceInventory, e: &HirExpr) -> (r: Option<String>)
    ensures
        r matches Some(p) ==> in_inventory(sources.entries@, p@),
        opt_string_view(r) == match super::hirq::path_of(*e) {
            Some(p) => super::resolve::resolved_source(sources.entries@, p),
            None => None,
        },
{
    match path_expr(e) {
        Some(p) => resolve_source_path(sources, &chars_of_string(p)),
        None => None,
    }
}

/// The key source and the text source of a submitting input: `key |>
/// WHEN { ... text ... }` whose key path resolves and whose `WHEN` reads a
/// text source.
pub open spec fn submit_sources(e: HirExpr, entries: Seq<SourceEntry>) -> Option<(Seq<char>, Seq<char>)> {
    match e.kind {
        HirExprKind::Pipeline { input, stages } => match super::hirq::path_of(*input) {
            Some(p) => match super::resolve::resolved_source(entries, p) {
                Some(k) => if stages@.len() > 0 && stages@[0].kind is When {
                    match crate::wiring::first_some(super::hirq::expr_paths(stages@[0]), text_source_of(entries)) {
                        Some(t) => Some((k, t)),
                        None => None,
                    }
                } else {
                    None
                },
                None => None,
            },
            None => None,
        },
        _ => None,
    }
}

/// The key source and the text source of a submitting input: `key |>
/// WHEN { ... text ... }`.
pub fn submit_text_sources(e: &HirExpr, sources: &SourceInventory) -> (r: Option<(String, String)>)
    ensures
        r matches Some((k, t)) ==> in_inventory(sources.entries@, k@) && in_inventory(sources.entries@, t@),
        match r {
            Some((k, t)) => submit_sources(*e, sources.entries@) == Some((k@, t@)),
            None => submit_sources(*e, sources.entries@) is None,
        },
{
    let (input, stages) = match pipeline_parts(e) {
        Some(p) => p,
        None => return None,
    };
    let key_path = match path_expr(input) {
        Some(p) => match resolve_source_path(sources, &chars_of_string(p)) {
            Some(k) => k,
            None => return None,
        },
        None => return None,
    };
    if stages.len() == 0 {
        return None;
    }
    match &stages[0].kind {
        HirExprKind::When { .. } => {},
        _ => return None,
    }
    match first_text_source_in_expr(&stages[0], sources) {
        Some(t) => Some((key_path, t)),
        None => None,
    }
}

/// The name of the first argument from the `k`-th on whose value is
/// `PASSED`.
pub open spec fn passed_arg(args: Seq<HirCallArg>, k: int) -> Option<Seq<char>>
    decreases args.len() - k,
{
    if k < 0 || k >= args.len() {
        None
    } else if args[k].value.kind is Passed {
        Some(args[k].name@)
    } else {
        passed_arg(args, k + 1)
    }
}

/// Whether the value of entry `e` is the path `passed`.
pub open spec fn passes_through(e: HirRecord, passed: Seq<char>) -> bool {
    match e.value {
        Some(v) => match v.kind {
            HirExprKind::Path { value } => value@ == passed,
            _ => false,
        },
        None => false,
    }
}

/// The key of the last of the first `n` entries, other than `sources`,
/// whose value is the path `passed`.
pub open spec fn shape_text_field(entries: Seq<HirRecord>, passed: Seq<char>, n: int) -> Option<Seq<char>>
    decreases n,
{
    if n <= 0 || n > entries.len() {
        None
    } else if entries[n - 1].key@ != "sources"@ && passes_through(entries[n - 1], passed) {
        Some(entries[n - 1].key@)
    } else {
        shape_text_field(entries, passed, n - 1)
    }
}

/// The static defaults of the first `n` entries other than `sources` and
/// those whose value is `passed`: each with a static value, in order.
pub open spec fn shape_defaults(entries: Seq<HirRecord>, passed: Seq<char>, n: int) -> Seq<(Seq<char>, super::statics::StaticModel)>
    decreases n,
{
    if n <= 0 || n > entries.len() {
        Seq::empty()
    } else {
        let before = shape_defaults(entries, passed, n - 1);
        let e = entries[n - 1];
        if e.key@ != "sources"@ && !passes_through(e, passed) {
            match super::statics::static_of_record_env(e, super::statics::env_map(Seq::<(String, IrStaticValue)>::empty())) {
                Some(m) => before.push((e.key@, m)),
                None => before,
            }
        } else {
            before
        }
    }
}

/// The append shape of a call of function `path` with `args`: where the
/// first function so named has a record body and an argument is
/// `PASSED`, the field that takes it and the defaults of the others.
#[verifier::opaque]
pub open spec fn stage_shape(items: Seq<HirItem>, path: Seq<char>, args: Seq<HirCallArg>) -> Option<(Seq<char>, Seq<(Seq<char>, super::statics::StaticModel)>)> {
    match super::hirq::first_function(items, path) {
        Some(f) => match f.body.kind {
            HirExprKind::Record { entries } => match passed_arg(args, 0) {
                Some(p) => match shape_text_field(entries@, p, entries@.len() as int) {
                    Some(t) => Some((t, shape_defaults(entries@, p, entries@.len() as int))),
                    None => None,
                },
                None => None,
            },
            _ => None,
        },
        None => None,
    }
}

/// The append shape of a stage that calls a function.
pub open spec fn stage_shape_of(items: Seq<HirItem>) -> spec_fn(HirExpr) -> Option<(Seq<char>, Seq<(Seq<char>, super::statics::StaticModel)>)> {
    |s: HirExpr| match s.kind {
        HirExprKind::FunctionCall { path, args } => stage_shape(items, path@, args@),
        _ => None,
    }
}

/// The append shape of a pipeline: that of its first stage that has one.
pub open spec fn record_shape(items: Seq<HirItem>, e: HirExpr) -> Option<(Seq<char>, Seq<(Seq<char>, super::statics::StaticModel)>)> {
    match e.kind {
        HirExprKind::Pipeline { stages, .. } => crate::wiring::first_some(stages@, stage_shape_of(items)),
        _ => None,
    }
}

/// An append shape as plain values.
pub open spec fn shape_view(x: (String, Vec<IrStaticField>)) -> (Seq<char>, Seq<(Seq<char>, super::statics::StaticModel)>) {
    (x.0@, super::statics::fields_model(x.1@))
}

/// The shape of an appended record: the field that takes the passed text,
/// and the static defaults of the other fields (other than `sources`), from
/// the first stage that calls a record function with a passed argument.
#[verifier::spinoff_prover]
#[verifier::rlimit(100)]
pub fn append_record_shape(hir: &HirModule, e: &HirExpr) -> (r: Option<(String, Vec<IrStaticField>)>)
    ensures
        match r {
            Some(x) => record_shape(hir.items@, *e) == Some(shape_view(x)),
            None => record_shape(hir.items@, *e) is None,
        },
{
    let (_, stages) = match pipeline_parts(e) {
        Some(p) => p,
        None => return None,
    };
    let ghost f = stage_shape_of(hir.items@);
    assert(record_shape(hir.items@, *e) == crate::wiring::first_some(stages@, f));
    let mut i: usize = 0;
    assert(stages@.take(0) =~= Seq::<HirExpr>::empty());
    while i < stages.len()
        invariant
            i <= stages@.len(),
            f == stage_shape_of(hir.items@),
            record_shape(hir.items@, *e) == crate::wiring::first_some(stages@, f),
            crate::wiring::first_some(stages@.take(i as int), f) is None,
        decreases stages.len() - i,
    {
        proof {
            crate::wiring::lemma_first_some_step(stages@, f, i as int);
        }
        match &stages[i].kind {
            HirExprKind::FunctionCall { path, args } => {
                assert(f(stages@[i as int]) == stage_shape(hir.items@, path@, args@));
                match append_stage_shape(hir, path, args) {
                    Some(found) => {
                        proof {
                            assert(crate::wiring::first_some(stages@.take(i + 1), f) == Some(shape_view(found)));
                            crate::wiring::lemma_first_some_prefix(stages@, f, i + 1);
                            assert(record_shape(hir.items@, *e) == crate::wiring::first_some(stages@, f));
                        }
                        return Some(found);
                    },
                    None => {},
                }
            },
            _ => {
                assert(f(stages@[i as int]) is None);
            },
        }
        i = i + 1;
    }
    proof {
        crate::wiring::lemma_first_some_all(stages@, f);
    }
    None
}

/// The append shape of a call of record function `path`.
fn append_stage_shape(hir: &HirModule, path: &String, args: &Vec<HirCallArg>) -> (r: Option<(String, Vec<IrStaticField>)>)
    ensures
        match r {
            Some(x) => stage_shape(hir.items@, path@, args@) == Some(shape_view(x)),
            None => stage_shape(hir.items@, path@, args@) is None,
        },
{
    reveal(stage_shape);
    let function = match hir_function(hir, path) {
        Some(f) => f,
        None => return None,
    };
    let entries = match &function.body.kind {
        HirExprKind::Record { entries } => entries,
        _ => return None,
    };
    let mut passed: Option<&String> = None;
    let mut k: usize = 0;
    while k < args.len()
        invariant_except_break
            k <= args@.len(),
            passed is None,
            passed_arg(args@, 0) == passed_arg(args@, k as int),
        ensures
            match passed {
                Some(p) => passed_arg(args@, 0) == Some(p@),
                None => passed_arg(args@, 0) is None,
            },
        decreases args.len() - k,
    {
        match &args[k].value.kind {
            HirExprKind::Passed => {
                passed = Some(&args[k].name);
                break;
            },
            _ => {},
        }
        k = k + 1;
    }
    let passed_arg = match passed {
        Some(p) => p,
        None => return None,
    };
    let ghost pv = passed_arg@;
    let empty: Vec<(String, IrStaticValue)> = Vec::new();
    assert(empty@ =~= Seq::<(String, IrStaticValue)>::empty());
    let mut defaults: Vec<IrStaticField> = Vec::new();
    let mut text_field: Option<String> = None;
    let mut i: usize = 0;
    assert(super::statics::fields_model(defaults@) =~= shape_defaults(entries@, pv, 0));
    while i < entries.len()
        invariant
            i <= entries@.len(),
            pv == passed_arg@,
            empty@ == Seq::<(String, IrStaticValue)>::empty(),
            super::statics::fields_model(defaults@) == shape_defaults(entries@, pv, i as int),
            match text_field {
                Some(t) => shape_text_field(entries@, pv, i as int) == Some(t@),
                None => shape_text_field(entries@, pv, i as int) is None,
            },
        decreases entries.len() - i,
    {
        let entry = &entries[i];
        let ghost d0 = super::statics::fields_model(defaults@);
        if !str_eq(&entry.key, "sources") {
            let is_passed = match &entry.value {
                Some(v) => match &v.kind {
                    HirExprKind::Path { value } => string_eq(value, passed_arg),
                    _ => false,
                },
                None => false,
            };
            assert(is_passed == passes_through(*entry, pv));
            if is_passed {
                text_field = Some(entry.key.clone());
            } else {
                match static_value_from_record_with_env(entry, &empty) {
                    Some(value) => {
                        let fld = IrStaticField { key: entry.key.clone(), value };
                        defaults.push(fld);
                        assert(super::statics::fields_model(defaults@) =~= d0.push((fld.key@, super::statics::static_model(fld.value))));
                    },
                    None => {},
                }
            }
        }
        i = i + 1;
    }
    match text_field {
        Some(t) => Some((t, defaults)),
        None => None,
    }
}

/// What appending with `args` reads: the key and text sources of the
/// record that the first path of the `item:` argument names, where its
/// value is a submitting input, and the append shape of `item:`.
pub open spec fn append_sources(items: Seq<HirItem>, entries: Seq<SourceEntry>, args: Seq<HirCallArg>) -> Option<(Seq<char>, Seq<char>, (Seq<char>, Seq<(Seq<char>, super::statics::StaticModel)>))> {
    match super::hirq::arg_index(args, "item"@) {
        Some(a) => match super::hirq::first_path(args[a].value) {
            Some(p) => match super::hirq::record_item_index(items, p) {
                Some(j) => match items[j] {
                    HirItem::Record(rec) => match rec.value {
                        Some(v) => match submit_sources(v, entries) {
                            Some((k, t)) => match record_shape(items, args[a].value) {
                                Some(sh) => Some((k, t, sh)),
                                None => None,
                            },
                            None => None,
                        },
                        None => None,
                    },
                    _ => None,
                },
                None => None,
            },
            None => None,
        },
        None => None,
    }
}

/// What appending reads: the key and text sources of the producer that
/// `item:` pipes from, and the shape of the appended record.
pub fn append_text_sources(hir: &HirModule, sources: &SourceInventory, args: &Vec<HirCallArg>) -> (r: Option<(String, String, String, Vec<IrStaticField>)>)
    ensures
        r matches Some((k, t, _, _)) ==> in_inventory(sources.entries@, k@) && in_inventory(sources.entries@, t@),
        match r {
            Some((k, t, f, d)) => append_sources(hir.items@, sources.entries@, args@) == Some((k@, t@, (f@, super::statics::fields_model(d@)))),
            None => append_sources(hir.items@, sources.entries@, args@) is None,
        },
{
    let item_expr = match named_arg(args, "item") {
        Some(a) => a,
        None => return None,
    };
    let producer_name = match first_path_in_expr(item_expr) {
        Some(p) => p,
        None => return None,
    };
    let producer = match hir_record(hir, producer_name.as_str()) {
        Some(p) => p,
        None => return None,
    };
    let value = match &producer.value {
        Some(v) => v,
        None => return None,
    };
    let (key_path, text_path) = match submit_text_sources(value, sources) {
        Some(x) => x,
        None => return None,
    };
    let (text_field, defaults) = match append_record_shape(hir, item_expr) {
        Some(x) => x,
        None => return None,
    };
    Some((key_path, text_path, text_field, defaults))
}

/// The fields of an appended record: the defaults, then the text field
/// from the trimmed text source.
pub fn append_record_fields(text_field: String, text_path: String, defaults: Vec<IrStaticField>) -> (r: Vec<IrCollectionFieldAssignment>)
    ensures
        r@.len() == defaults@.len() + 1,
        r@.last().field@ == text_field@,
        r@.last().value matches IrCollectionValueExpr::SourceText { path, trim } && path@ == text_path@ && trim,
{
    let mut fields: Vec<IrCollectionFieldAssignment> = Vec::new();
    let mut defaults = defaults;
    let n = defaults.len();
    let mut i: usize = 0;
    while i < n
        invariant
            i <= n,
            fields@.len() == i,
            defaults@.len() == n - i,
        decreases n - i,
    {
        let f = defaults.remove(0);
        fields.push(IrCollectionFieldAssignment { field: f.key, value: IrCollectionValueExpr::Static { value: f.value } });
        i = i + 1;
    }
    fields.push(IrCollectionFieldAssignment {
        field: text_field,
        value: IrCollectionValueExpr::SourceText { path: text_path, trim: true },
    });
    fields
}

/// The per-item source that `on` resolves to, where it is one.
pub open spec fn dynamic_on(on: HirExpr, entries: Seq<SourceEntry>) -> Option<Seq<char>> {
    match super::hirq::path_of(on) {
        Some(p) => match super::resolve::resolved_source(entries, p) {
            Some(x) => if crate::text::contains_seq(x, "[*]"@) { Some(x) } else { None },
            None => None,
        },
        None => None,
    }
}

/// Whether a list stage of a collection gives a handler: an append whose
/// sources are found, or a removal `on:` a per-item source, or on a
/// static source with an item field.
pub open spec fn stage_gives_handler(stage: HirExpr, items: Seq<HirItem>, entries: Seq<SourceEntry>) -> bool {
    match stage.kind {
        HirExprKind::ListCall { op: HirListOp::Append, args } => append_sources(items, entries, args@) is Some,
        HirExprKind::ListCall { op: HirListOp::Remove, args } => match super::hirq::arg_index(args@, "on"@) {
            Some(a) => {
                let on = args@[a].value;
                dynamic_on(on, entries) is Some || (crate::wiring::first_some(
                    super::hirq::expr_paths(on),
                    static_source_of(entries),
                ) is Some && crate::wiring::first_some(super::hirq::expr_paths(on), item_field_of()) is Some)
            },
            None => false,
        },
        _ => false,
    }
}

/// Whether `h` is the handler that list stage `stage` of collection `key`
/// gives: an append on `Enter` of its key source, appending a record
/// (skipped where the text field is empty) and clearing the text source;
/// a removal of the current item on a per-item source; or a removal of
/// the items whose field is set, on a static source.
#[verifier::opaque]
pub open spec fn list_handler_ok(h: IrEventHandler, stage: HirExpr, key: Seq<char>, items: Seq<HirItem>, entries: Seq<SourceEntry>) -> bool {
    match stage.kind {
        HirExprKind::ListCall { op: HirListOp::Append, args } => match append_sources(items, entries, args@) {
            Some((k, t, sh)) => {
                &&& h.source_path@ == k
                &&& match h.when {
                    Some(IrPredicate::SourceTagEquals { path, tag }) => path@ == k && tag@ == "Enter"@,
                    None => false,
                }
                &&& h.effects@.len() == 2
                &&& match h.effects@[0] {
                    IrEffect::CollectionAppendRecord { collection_path, skip_if_empty_field, .. } => collection_path@ == key
                        && opt_string_view(skip_if_empty_field) == Some(sh.0),
                    _ => false,
                }
                &&& match h.effects@[1] {
                    IrEffect::ClearText { text_state_path } => text_state_path@ == t,
                    _ => false,
                }
            },
            None => false,
        },
        HirExprKind::ListCall { op: HirListOp::Remove, args } => match super::hirq::arg_index(args@, "on"@) {
            Some(a) => {
                let on = args@[a].value;
                &&& h.when is None
                &&& h.effects@.len() == 1
                &&& match dynamic_on(on, entries) {
                    Some(d) => h.source_path@ == d && match h.effects@[0] {
                        IrEffect::CollectionRemoveCurrent { collection_path } => collection_path@ == key,
                        _ => false,
                    },
                    None => match crate::wiring::first_some(super::hirq::expr_paths(on), static_source_of(entries)) {
                        Some(sp) => match crate::wiring::first_some(super::hirq::expr_paths(on), item_field_of()) {
                            Some(fd) => h.source_path@ == sp && match h.effects@[0] {
                                IrEffect::CollectionRemoveWhere {
                                    collection_path,
                                    predicate: IrCollectionPredicate::FieldBoolEquals { field, value },
                                } => collection_path@ == key && field@ == fd && value,
                                _ => false,
                            },
                            None => false,
                        },
                        None => false,
                    },
                }
            },
            None => false,
        },
        _ => false,
    }
}

/// The stages of a record's pipeline value.
pub open spec fn record_stages(record: HirRecord) -> Seq<HirExpr> {
    match record.value {
        Some(v) => match v.kind {
            HirExprKind::Pipeline { stages, .. } => stages@,
            _ => Seq::empty(),
        },
        None => Seq::empty(),
    }
}

/// The first `n` stages that give a handler, in order.
pub open spec fn handler_stages(stages: Seq<HirExpr>, items: Seq<HirItem>, entries: Seq<SourceEntry>, n: int) -> Seq<HirExpr>
    decreases n,
{
    if n <= 0 || n > stages.len() {
        Seq::empty()
    } else {
        let before = handler_stages(stages, items, entries, n - 1);
        if stage_gives_handler(stages[n - 1], items, entries) { before.push(stages[n - 1]) } else { before }
    }
}

/// `new` is `old` followed by the handlers of `hs`, in order.
pub open spec fn list_handlers_appended(
    old_hs: Seq<IrEventHandler>,
    new_hs: Seq<IrEventHandler>,
    hs: Seq<HirExpr>,
    key: Seq<char>,
    items: Seq<HirItem>,
    entries: Seq<SourceEntry>,
) -> bool {
    &&& new_hs.len() == old_hs.len() + hs.len()
    &&& new_hs.take(old_hs.len() as int) == old_hs
    &&& forall|j: int| 0 <= j < hs.len() ==> list_handler_ok(#[trigger] new_hs[old_hs.len() + j], hs[j], key, items, entries)
}

proof fn lemma_list_handlers_push(
    h0: Seq<IrEventHandler>,
    a: Seq<IrEventHandler>,
    b: Seq<IrEventHandler>,
    hs: Seq<HirExpr>,
    stage: HirExpr,
    key: Seq<char>,
    items: Seq<HirItem>,
    entries: Seq<SourceEntry>,
)
    requires
        list_handlers_appended(h0, a, hs, key, items, entries),
        b == a.push(b[a.len() as int]),
        list_handler_ok(b[a.len() as int], stage, key, items, entries),
    ensures
        list_handlers_appended(h0, b, hs.push(stage), key, items, entries),
{
    assert(b.take(h0.len() as int) =~= a.take(h0.len() as int));
    assert forall|j: int| 0 <= j < hs.push(stage).len() implies #[trigger] list_handler_ok(
        #[trigger] b[h0.len() + j],
        hs.push(stage)[j],
        key,
        items,
        entries,
    ) by {
        if j < hs.len() {
            assert(b[h0.len() + j] == a[h0.len() + j]);
        }
    }
}

/// Adds the handlers of a collection's list operations: appending on
/// `Enter` from a submitting input, removing the current item or the items
/// whose flag field is set.
#[verifier::spinoff_prover]
#[verifier::rlimit(100)]
pub fn push_collection_handlers_from_hir_record(ir: &mut AppIr, hir: &HirModule, sources: &SourceInventory, record: &HirRecord)
    requires
        app_ir_sound(*old(ir), sources.entries@),
    ensures
        app_ir_sound(*final(ir), sources.entries@),
        final(ir).render_tree == old(ir).render_tree,
        same_but_handlers(*old(ir), *final(ir)),
        final(ir).event_handlers@.len() >= old(ir).event_handlers@.len(),
        final(ir).event_handlers@.take(old(ir).event_handlers@.len() as int) == old(ir).event_handlers@,
        list_handlers_appended(
            old(ir).event_handlers@,
            final(ir).event_handlers@,
            handler_stages(record_stages(*record), hir.items@, sources.entries@, record_stages(*record).len() as int),
            record.key@,
            hir.items@,
            sources.entries@,
        ),
{
    assert(ir.event_handlers@.take(ir.event_handlers@.len() as int) =~= ir.event_handlers@);
    let ghost h0 = ir.event_handlers@;
    let expr = match &record.value {
        Some(v) => v,
        None => return,
    };
    let (_, stages) = match pipeline_parts(expr) {
        Some(p) => p,
        None => return,
    };
    let ghost entries = sources.entries@;
    let ghost items = hir.items@;
    let ghost key = record.key@;
    assert(stages@ == record_stages(*record));
    let mut i: usize = 0;
    while i < stages.len()
        invariant
            i <= stages@.len(),
            entries == sources.entries@,
            app_ir_sound(*ir, entries),
            ir.render_tree == old(ir).render_tree,
            same_but_handlers(*old(ir), *ir),
            ir.event_handlers@.len() >= old(ir).event_handlers@.len(),
            ir.event_handlers@.take(old(ir).event_handlers@.len() as int) == old(ir).event_handlers@,
            h0 == old(ir).event_handlers@,
            items == hir.items@,
            key == record.key@,
            stages@ == record_stages(*record),
            list_handlers_appended(h0, ir.event_handlers@, handler_stages(stages@, items, entries, i as int), key, items, entries),
        decreases stages.len() - i,
    {
        let ghost before = ir.event_handlers@;
        let ghost hs = handler_stages(stages@, items, entries, i as int);
        let ghost stage = stages@[i as int];
        match &stages[i].kind {
            HirExprKind::ListCall { op: HirListOp::Append, args } => {
                match append_text_sources(hir, sources, args) {
                    Some((key_path, text_path, text_field, defaults)) => {
                        let mut effects: Vec<IrEffect> = Vec::new();
                        effects.push(IrEffect::CollectionAppendRecord {
                            collection_path: record.key.clone(),
                            fields: append_record_fields(text_field.clone(), text_path.clone(), defaults),
                            skip_if_empty_field: Some(text_field),
                        });
                        effects.push(IrEffect::ClearText { text_state_path: text_path });
                        let h = IrEventHandler {
                            source_path: key_path.clone(),
                            when: Some(IrPredicate::SourceTagEquals { path: key_path, tag: "Enter".to_owned() }),
                            effects,
                        };
                        push_handler(ir, h, Ghost(entries));
                        proof {
                            reveal(list_handler_ok);
                            assert(list_handler_ok(ir.event_handlers@[before.len() as int], stage, key, items, entries));
                        }
                    },
                    None => {},
                }
            },
            HirExprKind::ListCall { op: HirListOp::Remove, args } => {
                match named_arg(args, "on") {
                    Some(on_expr) => {
                        let dynamic = match item_source_path(sources, on_expr) {
                            Some(p) => {
                                if crate::text::contains(&chars_of_string(&p), &chars_of("[*]")) {
                                    Some(p)
                                } else {
                                    None
                                }
                            },
                            None => None,
                        };
                        match dynamic {
                            Some(dynamic_path) => {
                                let mut effects: Vec<IrEffect> = Vec::new();
                                effects.push(IrEffect::CollectionRemoveCurrent { collection_path: record.key.clone() });
                                push_handler(ir, IrEventHandler { source_path: dynamic_path, when: None, effects }, Ghost(entries));
                                proof {
                                    reveal(list_handler_ok);
                                    assert(list_handler_ok(ir.event_handlers@[before.len() as int], stage, key, items, entries));
                                }
                            },
                            None => {
                                match static_source_path_in_expr(sources, on_expr) {
                                    Some(static_path) => match first_item_field_in_expr(on_expr) {
                                        Some(field) => {
                                            let mut effects: Vec<IrEffect> = Vec::new();
                                            effects.push(IrEffect::CollectionRemoveWhere {
                                                collection_path: record.key.clone(),
                                                predicate: IrCollectionPredicate::FieldBoolEquals { field, value: true },
                                            });
                                            push_handler(ir, IrEventHandler { source_path: static_path, when: None, effects }, Ghost(entries));
                                            proof {
                                                reveal(list_handler_ok);
                                                assert(list_handler_ok(ir.event_handlers@[before.len() as int], stage, key, items, entries));
                                            }
                                        },
                                        None => {},
                                    },
                                    None => {},
                                }
                            },
                        }
                    },
                    None => {},
                }
            },
            _ => {},
        }
        proof {
            if stage_gives_handler(stage, items, entries) {
                lemma_list_handlers_push(h0, before, ir.event_handlers@, hs, stage, key, items, entries);
            } else {
                assert(ir.event_handlers@ == before);
            }
        }
        i = i + 1;
    }
}

/// The press source of a view selector.
pub open spec fn selector_press_path(key: Seq<char>) -> Seq<char> {
    "store.sources."@ + key + ".event.press"@
}

/// The keys of `children`, in order, whose press source the inventory holds.
pub open spec fn pressed_selectors(children: Seq<HirRecord>, entries: Seq<SourceEntry>) -> Seq<Seq<char>>
    decreases children.len(),
{
    if children.len() == 0 {
        Seq::empty()
    } else {
        let before = pressed_selectors(children.drop_last(), entries);
        let k = children.last().key@;
        if in_inventory(entries, selector_press_path(k)) { before.push(k) } else { before }
    }
}

/// The selectors of a `view` record that get a handler: the pressable
/// children of its first `selectors` child.
pub open spec fn view_selectors(record: HirRecord, entries: Seq<SourceEntry>) -> Seq<Seq<char>> {
    if record.key@ == "view"@ {
        match super::hirq::hir_child_index(record, "selectors"@) {
            Some(i) => pressed_selectors(record.children@[i].children@, entries),
            None => Seq::empty(),
        }
    } else {
        Seq::empty()
    }
}

/// Whether `h` sets the view selector to `key` when its button is pressed.
pub open spec fn selector_handler(h: IrEventHandler, key: Seq<char>) -> bool {
    &&& h.source_path@ == selector_press_path(key)
    &&& h.when is None
    &&& h.effects@.len() == 1
    &&& match h.effects@[0] {
        IrEffect::SetTagState { state_path, value } => state_path@ == "view_selector"@ && value@ == key,
        _ => false,
    }
}

/// Adds, for a `view` record, a handler per child of `view.selectors`
/// whose press source exists: pressing it selects that child's key.
pub fn push_selector_handlers_from_hir_record(ir: &mut AppIr, sources: &SourceInventory, record: &HirRecord)
    requires
        app_ir_sound(*old(ir), sources.entries@),
    ensures
        app_ir_sound(*final(ir), sources.entries@),
        final(ir).render_tree == old(ir).render_tree,
        same_but_handlers(*old(ir), *final(ir)),
        ({
            let sel = view_selectors(*record, sources.entries@);
            let n = old(ir).event_handlers@.len();
            &&& final(ir).event_handlers@.len() == n + sel.len()
            &&& final(ir).event_handlers@.subrange(0, n as int) == old(ir).event_handlers@
            &&& forall|j: int| 0 <= j < sel.len() ==> selector_handler(#[trigger] final(ir).event_handlers@[n + j], sel[j])
        }),
{
    let ghost h0 = ir.event_handlers@;
    let ghost entries = sources.entries@;
    proof {
        reveal_strlit("view");
    }
    if !str_eq(&record.key, "view") {
        assert(ir.event_handlers@.subrange(0, h0.len() as int) =~= h0);
        return;
    }
    let selectors = match hir_child_record(record, "selectors") {
        Some(s) => s,
        None => {
            proof {
                reveal_strlit("selectors");
            }
            assert(ir.event_handlers@.subrange(0, h0.len() as int) =~= h0);
            return;
        },
    };
    proof {
        reveal_strlit("selectors");
    }
    let ghost ch = selectors.children@;
    assert(view_selectors(*record, entries) == pressed_selectors(ch, entries));
    let mut i: usize = 0;
    assert(ch.take(0) =~= Seq::<HirRecord>::empty());
    while i < selectors.children.len()
        invariant
            i <= selectors.children@.len(),
            ch == selectors.children@,
            entries == sources.entries@,
            app_ir_sound(*ir, entries),
            ir.render_tree == old(ir).render_tree,
            same_but_handlers(*old(ir), *ir),
            h0 == old(ir).event_handlers@,
            ir.event_handlers@.len() == h0.len() + pressed_selectors(ch.take(i as int), entries).len(),
            ir.event_handlers@.subrange(0, h0.len() as int) == h0,
            forall|j: int| 0 <= j < pressed_selectors(ch.take(i as int), entries).len() ==> selector_handler(
                #[trigger] ir.event_handlers@[h0.len() + j],
                pressed_selectors(ch.take(i as int), entries)[j],
            ),
        decreases selectors.children.len() - i,
    {
        let selector = &selectors.children[i];
        let ghost before = ir.event_handlers@;
        let ghost ps = pressed_selectors(ch.take(i as int), entries);
        assert(ch.take(i + 1).drop_last() =~= ch.take(i as int));
        assert(ch.take(i + 1).last() == ch[i as int]);
        let mut p: Vec<char> = Vec::new();
        push_str(&mut p, "store.sources.");
        push_all(&mut p, &chars_of_string(&selector.key));
        push_str(&mut p, ".event.press");
        assert(p@ =~= selector_press_path(selector.key@));
        match existing_source_path(sources, &p) {
            Some(source_path) => {
                let mut effects: Vec<IrEffect> = Vec::new();
                effects.push(IrEffect::SetTagState { state_path: "view_selector".to_owned(), value: selector.key.clone() });
                let h = IrEventHandler { source_path, when: None, effects };
                assert(selector_handler(h, selector.key@));
                push_handler(ir, h, Ghost(entries));
                assert(pressed_selectors(ch.take(i + 1), entries) == ps.push(selector.key@));
                assert(ir.event_handlers@.subrange(0, h0.len() as int) =~= before.subrange(0, h0.len() as int));
                assert forall|j: int| 0 <= j < ps.len() + 1 implies selector_handler(
                    #[trigger] ir.event_handlers@[h0.len() + j],
                    ps.push(selector.key@)[j],
                ) by {
                    if j < ps.len() {
                        assert(ir.event_handlers@[h0.len() + j] == before[h0.len() + j]);
                    }
                }
            },
            None => {
                assert(pressed_selectors(ch.take(i + 1), entries) == ps);
            },
        }
        i = i + 1;
    }
    assert(ch.take(ch.len() as int) =~= ch);
}

// ---------------------------------------------------------------------------
// Item state handlers
// ---------------------------------------------------------------------------

/// Whether some stage is a `THEN`.
pub open spec fn has_then_stage(stages: Seq<HirExpr>) -> bool {
    exists|i: int| 0 <= i < stages.len() && (#[trigger] stages[i]).kind is Then
}

/// The resolved sources of the `source |> ... THEN` pipelines in `e`, in
/// the order in which a walk that visits a pipeline before its input and
/// stages meets them.
pub open spec fn latest_then_sources(e: HirExpr, entries: Seq<SourceEntry>) -> Seq<Seq<char>>
    decreases e, 1int,
{
    match e.kind {
        HirExprKind::Pipeline { input, stages } => {
            let own = if has_then_stage(stages@) {
                match super::hirq::path_of(*input) {
                    Some(p) => match super::resolve::resolved_source(entries, p) {
                        Some(x) => seq![x],
                        None => Seq::empty(),
                    },
                    None => Seq::empty(),
                }
            } else {
                Seq::empty()
            };
            own + latest_then_sources(*input, entries) + latest_then_exprs(stages@, entries)
        },
        HirExprKind::Latest { branches } => latest_then_exprs(branches@, entries),
        HirExprKind::While { arms } => latest_then_arms(arms@, entries),
        HirExprKind::When { arms } => latest_then_arms(arms@, entries),
        HirExprKind::Then { body } => latest_then_sources(*body, entries),
        HirExprKind::Hold { body, .. } => latest_then_sources(*body, entries),
        _ => Seq::empty(),
    }
}

/// `latest_then_sources` of each expression in turn.
pub open spec fn latest_then_exprs(s: Seq<HirExpr>, entries: Seq<SourceEntry>) -> Seq<Seq<char>>
    decreases s, 0int,
{
    if s.len() == 0 {
        Seq::empty()
    } else {
        proof {
            assert(decreases_to!(s => s[s.len() - 1]));
        }
        latest_then_exprs(s.drop_last(), entries) + latest_then_sources(s[s.len() - 1], entries)
    }
}

/// `latest_then_sources` of each arm's value in turn.
pub open spec fn latest_then_arms(s: Seq<crate::hir::HirWhenArm>, entries: Seq<SourceEntry>) -> Seq<Seq<char>>
    decreases s, 0int,
{
    if s.len() == 0 {
        Seq::empty()
    } else {
        proof {
            assert(decreases_to!(s => s[s.len() - 1]));
        }
        latest_then_arms(s.drop_last(), entries) + latest_then_sources(s[s.len() - 1].value, entries)
    }
}

/// Appends the resolved sources of every `source |> ... THEN` pipeline in
/// `e`, and of those inside it.
pub fn collect_latest_then_sources(e: &HirExpr, sources: &SourceInventory, paths: &mut Vec<String>)
    requires
        forall|i: int| 0 <= i < old(paths)@.len() ==> in_inventory(sources.entries@, (#[trigger] old(paths)@[i])@),
    ensures
        forall|i: int| 0 <= i < final(paths)@.len() ==> in_inventory(sources.entries@, (#[trigger] final(paths)@[i])@),
        views(final(paths)@) == views(old(paths)@) + latest_then_sources(*e, sources.entries@),
    decreases e, 1int,
{
    let ghost p0 = paths@;
    let ghost entries = sources.entries@;
    match &e.kind {
        HirExprKind::Pipeline { input, stages } => {
            let mut has_then = false;
            let mut i: usize = 0;
            while i < stages.len()
                invariant
                    i <= stages@.len(),
                    has_then <==> exists|j: int| 0 <= j < i && (#[trigger] stages@[j]).kind is Then,
                decreases stages.len() - i,
            {
                match &stages[i].kind {
                    HirExprKind::Then { .. } => {
                        has_then = true;
                    },
                    _ => {},
                }
                i = i + 1;
            }
            assert(has_then == has_then_stage(stages@));
            if has_then {
                match path_expr(input) {
                    Some(p) => match resolve_source_path(sources, &chars_of_string(p)) {
                        Some(path) => {
                            proof {
                                super::reads::lemma_views_push(paths@, path);
                            }
                            paths.push(path);
                        },
                        None => {},
                    },
                    None => {},
                }
            }
            let ghost p1 = views(paths@);
            collect_latest_then_sources(input, sources, paths);
            latest_then_in_exprs(stages, sources, paths);
            assert(views(paths@) =~= views(p0) + latest_then_sources(*e, entries));
        },
        HirExprKind::Latest { branches } => latest_then_in_exprs(branches, sources, paths),
        HirExprKind::While { arms } => latest_then_in_arms(arms, sources, paths),
        HirExprKind::When { arms } => latest_then_in_arms(arms, sources, paths),
        HirExprKind::Then { body } => collect_latest_then_sources(body, sources, paths),
        HirExprKind::Hold { body, .. } => collect_latest_then_sources(body, sources, paths),
        _ => {
            assert(views(paths@) =~= views(p0) + latest_then_sources(*e, entries));
        },
    }
}

fn latest_then_in_exprs(v: &Vec<HirExpr>, sources: &SourceInventory, paths: &mut Vec<String>)
    requires
        forall|i: int| 0 <= i < old(paths)@.len() ==> in_inventory(sources.entries@, (#[trigger] old(paths)@[i])@),
    ensures
        forall|i: int| 0 <= i < final(paths)@.len() ==> in_inventory(sources.entries@, (#[trigger] final(paths)@[i])@),
        views(final(paths)@) == views(old(paths)@) + latest_then_exprs(v@, sources.entries@),
    decreases v@, 0int,
{
    let ghost p0 = views(paths@);
    let mut i: usize = 0;
    assert(v@.take(0) =~= Seq::<HirExpr>::empty());
    assert(views(paths@) =~= p0 + latest_then_exprs(v@.take(0), sources.entries@));
    while i < v.len()
        invariant
            i <= v@.len(),
            forall|k: int| 0 <= k < paths@.len() ==> in_inventory(sources.entries@, (#[trigger] paths@[k])@),
            views(paths@) == p0 + latest_then_exprs(v@.take(i as int), sources.entries@),
        decreases v.len() - i,
    {
        proof {
            assert(decreases_to!(v@ => v@[i as int]));
        }
        collect_latest_then_sources(&v[i], sources, paths);
        assert(v@.take(i + 1).drop_last() =~= v@.take(i as int));
        assert(views(paths@) =~= p0 + latest_then_exprs(v@.take(i + 1), sources.entries@));
        i = i + 1;
    }
    assert(v@.take(v@.len() as int) =~= v@);
}

fn latest_then_in_arms(v: &Vec<crate::hir::HirWhenArm>, sources: &SourceInventory, paths: &mut Vec<String>)
    requires
        forall|i: int| 0 <= i < old(paths)@.len() ==> in_inventory(sources.entries@, (#[trigger] old(paths)@[i])@),
    ensures
        forall|i: int| 0 <= i < final(paths)@.len() ==> in_inventory(sources.entries@, (#[trigger] final(paths)@[i])@),
        views(final(paths)@) == views(old(paths)@) + latest_then_arms(v@, sources.entries@),
    decreases v@, 0int,
{
    let ghost p0 = views(paths@);
    let mut i: usize = 0;
    assert(v@.take(0) =~= Seq::<crate::hir::HirWhenArm>::empty());
    assert(views(paths@) =~= p0 + latest_then_arms(v@.take(0), sources.entries@));
    while i < v.len()
        invariant
            i <= v@.len(),
            forall|k: int| 0 <= k < paths@.len() ==> in_inventory(sources.entries@, (#[trigger] paths@[k])@),
            views(paths@) == p0 + latest_then_arms(v@.take(i as int), sources.entries@),
        decreases v.len() - i,
    {
        proof {
            assert(decreases_to!(v@ => v@[i as int]));
        }
        collect_latest_then_sources(&v[i].value, sources, paths);
        assert(v@.take(i + 1).drop_last() =~= v@.take(i as int));
        assert(views(paths@) =~= p0 + latest_then_arms(v@.take(i + 1), sources.entries@));
        i = i + 1;
    }
    assert(v@.take(v@.len() as int) =~= v@);
}

/// Whether `h` toggles the boolean field `field` of the items of
/// `collection` on source `path`: that of the event's owner where the path
/// is per item (holds `[*]`), else that of every item.
pub open spec fn toggle_handler(h: IrEventHandler, path: Seq<char>, collection: Seq<char>, field: Seq<char>) -> bool {
    &&& h.source_path@ == path
    &&& h.when is None
    &&& h.effects@.len() == 1
    &&& match h.effects@[0] {
        IrEffect::CollectionUpdateOwnerField { collection_path, field: f, value } => {
            &&& crate::text::contains_seq(path, "[*]"@)
            &&& collection_path@ == collection
            &&& f@ == field
            &&& match value {
                IrCollectionValueExpr::NotOwnerBoolField { field: g } => g@ == field,
                _ => false,
            }
        },
        IrEffect::CollectionUpdateAllFields { collection_path, field: f, value } => {
            &&& !crate::text::contains_seq(path, "[*]"@)
            &&& collection_path@ == collection
            &&& f@ == field
            &&& match value {
                IrCollectionValueExpr::NotAllBoolField { field: g } => g@ == field,
                _ => false,
            }
        },
        _ => false,
    }
}

/// `new` is `old` followed by one toggle handler per `(source, field)` of
/// `t`, in order, on `collection`.
pub open spec fn toggles_appended(
    old_hs: Seq<IrEventHandler>,
    new_hs: Seq<IrEventHandler>,
    t: Seq<(Seq<char>, Seq<char>)>,
    collection: Seq<char>,
) -> bool {
    &&& new_hs.len() == old_hs.len() + t.len()
    &&& new_hs.subrange(0, old_hs.len() as int) == old_hs
    &&& forall|j: int| 0 <= j < t.len() ==> toggle_handler(#[trigger] new_hs[old_hs.len() + j], t[j].0, collection, t[j].1)
}

pub proof fn lemma_toggles_appended_trans(
    a: Seq<IrEventHandler>,
    b: Seq<IrEventHandler>,
    c: Seq<IrEventHandler>,
    t1: Seq<(Seq<char>, Seq<char>)>,
    t2: Seq<(Seq<char>, Seq<char>)>,
    collection: Seq<char>,
)
    requires
        toggles_appended(a, b, t1, collection),
        toggles_appended(b, c, t2, collection),
    ensures
        toggles_appended(a, c, t1 + t2, collection),
{
    assert(c.subrange(0, a.len() as int) =~= b.subrange(0, a.len() as int));
    assert forall|j: int| 0 <= j < (t1 + t2).len() implies toggle_handler(
        #[trigger] c[a.len() + j],
        (t1 + t2)[j].0,
        collection,
        (t1 + t2)[j].1,
    ) by {
        if j < t1.len() {
            assert(c[a.len() + j] == c.subrange(0, b.len() as int)[a.len() + j]);
            assert(b[a.len() + j] == c[a.len() + j]);
        } else {
            assert(c[a.len() + j] == c[b.len() + (j - t1.len())]);
        }
    }
}

pub proof fn lemma_toggles_appended_refl(a: Seq<IrEventHandler>, collection: Seq<char>)
    ensures
        toggles_appended(a, a, Seq::empty(), collection),
{
    assert(a.subrange(0, a.len() as int) =~= a);
}

/// The parts of the app IR other than its event handlers are unchanged.
pub open spec fn same_but_handlers(a: AppIr, b: AppIr) -> bool {
    &&& a.state_cells == b.state_cells
    &&& a.collection_states == b.collection_states
    &&& a.static_records == b.static_records
    &&& a.render_tree == b.render_tree
}

/// The toggles of one record: each resolved `source |> ... THEN` source in
/// its value, with the record's key as the field.
pub open spec fn record_toggles(r: HirRecord, entries: Seq<SourceEntry>) -> Seq<(Seq<char>, Seq<char>)> {
    match r.value {
        Some(v) => latest_then_sources(v, entries).map_values(|p: Seq<char>| (p, r.key@)),
        None => Seq::empty(),
    }
}

/// The toggles of every record in `e`: a record's own, then those in its
/// value, then those of its children.
pub open spec fn item_toggles_expr(e: HirExpr, entries: Seq<SourceEntry>) -> Seq<(Seq<char>, Seq<char>)>
    decreases e, 2int,
{
    match e.kind {
        HirExprKind::Record { entries: es } => item_toggles_records(es@, entries),
        HirExprKind::Pipeline { input, stages } => item_toggles_expr(*input, entries) + item_toggles_exprs(stages@, entries),
        HirExprKind::Then { body } => item_toggles_expr(*body, entries),
        HirExprKind::Hold { body, .. } => item_toggles_expr(*body, entries),
        HirExprKind::Latest { branches } => item_toggles_exprs(branches@, entries),
        HirExprKind::List { items } => item_toggles_exprs(items@, entries),
        HirExprKind::HostCall { args, .. } => item_toggles_args(args@, entries),
        HirExprKind::ListCall { args, .. } => item_toggles_args(args@, entries),
        HirExprKind::FunctionCall { args, .. } => item_toggles_args(args@, entries),
        HirExprKind::Binary { left, right, .. } => item_toggles_expr(*left, entries) + item_toggles_expr(*right, entries),
        HirExprKind::Block { bindings } => item_toggles_bindings(bindings@, entries),
        HirExprKind::When { arms } => item_toggles_arms(arms@, entries),
        HirExprKind::While { arms } => item_toggles_arms(arms@, entries),
        _ => Seq::empty(),
    }
}

/// The toggles of a record and of the records inside it.
pub open spec fn item_toggles_record(r: HirRecord, entries: Seq<SourceEntry>) -> Seq<(Seq<char>, Seq<char>)>
    decreases r, 2int,
{
    let inner = match r.value {
        Some(v) => item_toggles_expr(v, entries),
        None => Seq::empty(),
    };
    proof {
        assert(decreases_to!(r => r.children));
        assert(decreases_to!(r.children => r.children@));
    }
    record_toggles(r, entries) + inner + item_toggles_records(r.children@, entries)
}

pub open spec fn item_toggles_records(s: Seq<HirRecord>, entries: Seq<SourceEntry>) -> Seq<(Seq<char>, Seq<char>)>
    decreases s, 1int,
{
    if s.len() == 0 {
        Seq::empty()
    } else {
        proof {
            assert(decreases_to!(s => s[s.len() - 1]));
        }
        item_toggles_records(s.drop_last(), entries) + item_toggles_record(s[s.len() - 1], entries)
    }
}

pub open spec fn item_toggles_exprs(s: Seq<HirExpr>, entries: Seq<SourceEntry>) -> Seq<(Seq<char>, Seq<char>)>
    decreases s, 1int,
{
    if s.len() == 0 {
        Seq::empty()
    } else {
        proof {
            assert(decreases_to!(s => s[s.len() - 1]));
        }
        item_toggles_exprs(s.drop_last(), entries) + item_toggles_expr(s[s.len() - 1], entries)
    }
}

pub open spec fn item_toggles_args(s: Seq<HirCallArg>, entries: Seq<SourceEntry>) -> Seq<(Seq<char>, Seq<char>)>
    decreases s, 1int,
{
    if s.len() == 0 {
        Seq::empty()
    } else {
        proof {
            assert(decreases_to!(s => s[s.len() - 1]));
        }
        item_toggles_args(s.drop_last(), entries) + item_toggles_expr(s[s.len() - 1].value, entries)
    }
}

pub open spec fn item_toggles_bindings(s: Seq<crate::hir::HirBinding>, entries: Seq<SourceEntry>) -> Seq<(Seq<char>, Seq<char>)>
    decreases s, 1int,
{
    if s.len() == 0 {
        Seq::empty()
    } else {
        proof {
            assert(decreases_to!(s => s[s.len() - 1]));
        }
        item_toggles_bindings(s.drop_last(), entries) + item_toggles_expr(s[s.len() - 1].value, entries)
    }
}

pub open spec fn item_toggles_arms(s: Seq<crate::hir::HirWhenArm>, entries: Seq<SourceEntry>) -> Seq<(Seq<char>, Seq<char>)>
    decreases s, 1int,
{
    if s.len() == 0 {
        Seq::empty()
    } else {
        proof {
            assert(decreases_to!(s => s[s.len() - 1]));
        }
        item_toggles_arms(s.drop_last(), entries) + item_toggles_expr(s[s.len() - 1].value, entries)
    }
}

/// The toggles of the records inside the module's functions, function by
/// function.
pub open spec fn module_toggles(items: Seq<HirItem>, entries: Seq<SourceEntry>) -> Seq<(Seq<char>, Seq<char>)>
    decreases items.len(),
{
    if items.len() == 0 {
        Seq::empty()
    } else {
        module_toggles(items.drop_last(), entries) + match items.last() {
            HirItem::Function(f) => item_toggles_expr(f.body, entries),
            _ => Seq::empty(),
        }
    }
}

/// Adds, for a record inside an item function, a handler per source that
/// toggles it: a per-item source flips the owner's field, a static source
/// flips the field of every item.
fn item_handlers_for_record(r: &HirRecord, ir: &mut AppIr, sources: &SourceInventory, collection_path: &String)
    requires
        app_ir_sound(*old(ir), sources.entries@),
    ensures
        app_ir_sound(*final(ir), sources.entries@),
        final(ir).render_tree == old(ir).render_tree,
        same_but_handlers(*old(ir), *final(ir)),
        toggles_appended(old(ir).event_handlers@, final(ir).event_handlers@, record_toggles(*r, sources.entries@), collection_path@),
{
    let ghost h0 = ir.event_handlers@;
    let mut paths: Vec<String> = Vec::new();
    assert(views(paths@) =~= Seq::<Seq<char>>::empty());
    match &r.value {
        Some(v) => {
            collect_latest_then_sources(v, sources, &mut paths);
            assert(views(paths@) =~= latest_then_sources(*v, sources.entries@));
        },
        None => {},
    }
    let ghost entries = sources.entries@;
    let ghost t = record_toggles(*r, entries);
    assert(t.len() == paths@.len());
    assert(forall|j: int| 0 <= j < t.len() ==> #[trigger] t[j] == (paths@[j]@, r.key@));
    let star = chars_of("[*]");
    let mut i: usize = 0;
    while i < paths.len()
        invariant
            i <= paths@.len(),
            entries == sources.entries@,
            star@ == "[*]"@,
            forall|k: int| 0 <= k < paths@.len() ==> in_inventory(entries, (#[trigger] paths@[k])@),
            app_ir_sound(*ir, entries),
            ir.render_tree == old(ir).render_tree,
            same_but_handlers(*old(ir), *ir),
            h0 == old(ir).event_handlers@,
            ir.event_handlers@.len() == h0.len() + i,
            ir.event_handlers@.subrange(0, h0.len() as int) == h0,
            forall|j: int| 0 <= j < i ==> toggle_handler(#[trigger] ir.event_handlers@[h0.len() + j], paths@[j]@, collection_path@, r.key@),
        decreases paths.len() - i,
    {
        let event_path = paths[i].clone();
        let mut effects: Vec<IrEffect> = Vec::new();
        if crate::text::contains(&chars_of_string(&event_path), &star) {
            effects.push(IrEffect::CollectionUpdateOwnerField {
                collection_path: collection_path.clone(),
                field: r.key.clone(),
                value: IrCollectionValueExpr::NotOwnerBoolField { field: r.key.clone() },
            });
        } else {
            effects.push(IrEffect::CollectionUpdateAllFields {
                collection_path: collection_path.clone(),
                field: r.key.clone(),
                value: IrCollectionValueExpr::NotAllBoolField { field: r.key.clone() },
            });
        }
        assert(in_inventory(entries, paths@[i as int]@));
        let h = IrEventHandler { source_path: event_path, when: None, effects };
        assert(toggle_handler(h, paths@[i as int]@, collection_path@, r.key@));
        let ghost before = ir.event_handlers@;
        push_handler(ir, h, Ghost(entries));
        assert(ir.event_handlers@.subrange(0, h0.len() as int) =~= before.subrange(0, h0.len() as int));
        assert forall|j: int| 0 <= j < i + 1 implies toggle_handler(#[trigger] ir.event_handlers@[h0.len() + j], paths@[j]@, collection_path@, r.key@) by {
            if j < i {
                assert(ir.event_handlers@[h0.len() + j] == before[h0.len() + j]);
            }
        }
        i = i + 1;
    }
    assert(ir.event_handlers@.len() == h0.len() + t.len());
}

/// Visits every record in `e` (a record, then its value's records, then
/// its children), adding its toggle handlers.
fn item_handlers_expr(e: &HirExpr, ir: &mut AppIr, sources: &SourceInventory, collection_path: &String)
    requires
        app_ir_sound(*old(ir), sources.entries@),
    ensures
        app_ir_sound(*final(ir), sources.entries@),
        final(ir).render_tree == old(ir).render_tree,
        same_but_handlers(*old(ir), *final(ir)),
        toggles_appended(old(ir).event_handlers@, final(ir).event_handlers@, item_toggles_expr(*e, sources.entries@), collection_path@),
    decreases e, 2int,
{
    let ghost h0 = ir.event_handlers@;
    let ghost entries = sources.entries@;
    match &e.kind {
        HirExprKind::Record { entries } => item_handlers_records(entries, ir, sources, collection_path),
        HirExprKind::Pipeline { input, stages } => {
            item_handlers_expr(input, ir, sources, collection_path);
            let ghost mid = ir.event_handlers@;
            item_handlers_exprs(stages, ir, sources, collection_path);
            proof {
                lemma_toggles_appended_trans(h0, mid, ir.event_handlers@, item_toggles_expr(**input, entries), item_toggles_exprs(stages@, entries), collection_path@);
            }
        },
        HirExprKind::Then { body } => item_handlers_expr(body, ir, sources, collection_path),
        HirExprKind::Hold { body, .. } => item_handlers_expr(body, ir, sources, collection_path),
        HirExprKind::Latest { branches } => item_handlers_exprs(branches, ir, sources, collection_path),
        HirExprKind::List { items } => item_handlers_exprs(items, ir, sources, collection_path),
        HirExprKind::HostCall { args, .. } => item_handlers_args(args, ir, sources, collection_path),
        HirExprKind::ListCall { args, .. } => item_handlers_args(args, ir, sources, collection_path),
        HirExprKind::FunctionCall { args, .. } => item_handlers_args(args, ir, sources, collection_path),
        HirExprKind::Binary { left, right, .. } => {
            item_handlers_expr(left, ir, sources, collection_path);
            let ghost mid = ir.event_handlers@;
            item_handlers_expr(right, ir, sources, collection_path);
            proof {
                lemma_toggles_appended_trans(h0, mid, ir.event_handlers@, item_toggles_expr(**left, entries), item_toggles_expr(**right, entries), collection_path@);
            }
        },
        HirExprKind::Block { bindings } => item_handlers_bindings(bindings, ir, sources, collection_path),
        HirExprKind::When { arms } => item_handlers_arms(arms, ir, sources, collection_path),
        HirExprKind::While { arms } => item_handlers_arms(arms, ir, sources, collection_path),
        _ => {
            proof {
                lemma_toggles_appended_refl(h0, collection_path@);
            }
        },
    }
}

fn item_handlers_record(r: &HirRecord, ir: &mut AppIr, sources: &SourceInventory, collection_path: &String)
    requires
        app_ir_sound(*old(ir), sources.entries@),
    ensures
        app_ir_sound(*final(ir), sources.entries@),
        final(ir).render_tree == old(ir).render_tree,
        same_but_handlers(*old(ir), *final(ir)),
        toggles_appended(old(ir).event_handlers@, final(ir).event_handlers@, item_toggles_record(*r, sources.entries@), collection_path@),
    decreases r, 2int,
{
    let ghost h0 = ir.event_handlers@;
    let ghost entries = sources.entries@;
    item_handlers_for_record(r, ir, sources, collection_path);
    let ghost m1 = ir.event_handlers@;
    let ghost inner = if r.value is Some {
        item_toggles_expr(r.value->0, entries)
    } else {
        Seq::empty()
    };
    match &r.value {
        Some(v) => item_handlers_expr(v, ir, sources, collection_path),
        None => {
            proof {
                lemma_toggles_appended_refl(m1, collection_path@);
            }
        },
    }
    let ghost m2 = ir.event_handlers@;
    proof {
        lemma_toggles_appended_trans(h0, m1, m2, record_toggles(*r, entries), inner, collection_path@);
    }
    item_handlers_records(&r.children, ir, sources, collection_path);
    proof {
        lemma_toggles_appended_trans(h0, m2, ir.event_handlers@, record_toggles(*r, entries) + inner, item_toggles_records(r.children@, entries), collection_path@);
    }
}

fn item_handlers_records(v: &Vec<HirRecord>, ir: &mut AppIr, sources: &SourceInventory, collection_path: &String)
    requires
        app_ir_sound(*old(ir), sources.entries@),
    ensures
        app_ir_sound(*final(ir), sources.entries@),
        final(ir).render_tree == old(ir).render_tree,
        same_but_handlers(*old(ir), *final(ir)),
        toggles_appended(old(ir).event_handlers@, final(ir).event_handlers@, item_toggles_records(v@, sources.entries@), collection_path@),
    decreases v@, 1int,
{
    let ghost h0 = ir.event_handlers@;
    let ghost entries = sources.entries@;
    let mut i: usize = 0;
    proof {
        lemma_toggles_appended_refl(h0, collection_path@);
    }
    assert(v@.take(0) =~= Seq::<HirRecord>::empty());
    while i < v.len()
        invariant
            i <= v@.len(),
            entries == sources.entries@,
            app_ir_sound(*ir, sources.entries@),
            ir.render_tree == old(ir).render_tree,
            same_but_handlers(*old(ir), *ir),
            h0 == old(ir).event_handlers@,
            toggles_appended(h0, ir.event_handlers@, item_toggles_records(v@.take(i as int), entries), collection_path@),
        decreases v.len() - i,
    {
        proof {
            assert(decreases_to!(v@ => v@[i as int]));
        }
        let ghost mid = ir.event_handlers@;
        item_handlers_record(&v[i], ir, sources, collection_path);
        proof {
            lemma_toggles_appended_trans(
                h0,
                mid,
                ir.event_handlers@,
                item_toggles_records(v@.take(i as int), entries),
                item_toggles_record(v@[i as int], entries),
                collection_path@,
            );
            assert(v@.take(i + 1).drop_last() =~= v@.take(i as int));
        }
        i = i + 1;
    }
    assert(v@.take(v@.len() as int) =~= v@);
}

fn item_handlers_exprs(v: &Vec<HirExpr>, ir: &mut AppIr, sources: &SourceInventory, collection_path: &String)
    requires
        app_ir_sound(*old(ir), sources.entries@),
    ensures
        app_ir_sound(*final(ir), sources.entries@),
        final(ir).render_tree == old(ir).render_tree,
        same_but_handlers(*old(ir), *final(ir)),
        toggles_appended(old(ir).event_handlers@, final(ir).event_handlers@, item_toggles_exprs(v@, sources.entries@), collection_path@),
    decreases v@, 1int,
{
    let ghost h0 = ir.event_handlers@;
    let ghost entries = sources.entries@;
    let mut i: usize = 0;
    proof {
        lemma_toggles_appended_refl(h0, collection_path@);
    }
    assert(v@.take(0) =~= Seq::<HirExpr>::empty());
    while i < v.len()
        invariant
            i <= v@.len(),
            entries == sources.entries@,
            app_ir_sound(*ir, sources.entries@),
            ir.render_tree == old(ir).render_tree,
            same_but_handlers(*old(ir), *ir),
            h0 == old(ir).event_handlers@,
            toggles_appended(h0, ir.event_handlers@, item_toggles_exprs(v@.take(i as int), entries), collection_path@),
        decreases v.len() - i,
    {
        proof {
            assert(decreases_to!(v@ => v@[i as int]));
        }
        let ghost mid = ir.event_handlers@;
        item_handlers_expr(&v[i], ir, sources, collection_path);
        proof {
            lemma_toggles_appended_trans(
                h0,
                mid,
                ir.event_handlers@,
                item_toggles_exprs(v@.take(i as int), entries),
                item_toggles_expr(v@[i as int], entries),
                collection_path@,
            );
            assert(v@.take(i + 1).drop_last() =~= v@.take(i as int));
        }
        i = i + 1;
    }
    assert(v@.take(v@.len() as int) =~= v@);
}

fn item_handlers_args(v: &Vec<HirCallArg>, ir: &mut AppIr, sources: &SourceInventory, collection_path: &String)
    requires
        app_ir_sound(*old(ir), sources.entries@),
    ensures
        app_ir_sound(*final(ir), sources.entries@),
        final(ir).render_tree == old(ir).render_tree,
        same_but_handlers(*old(ir), *final(ir)),
        toggles_appended(old(ir).event_handlers@, final(ir).event_handlers@, item_toggles_args(v@, sources.entries@), collection_path@),
    decreases v@, 1int,
{
    let ghost h0 = ir.event_handlers@;
    let ghost entries = sources.entries@;
    let mut i: usize = 0;
    proof {
        lemma_toggles_appended_refl(h0, collection_path@);
    }
    assert(v@.take(0) =~= Seq::<HirCallArg>::empty());
    while i < v.len()
        invariant
            i <= v@.len(),
            entries == sources.entries@,
            app_ir_sound(*ir, sources.entries@),
            ir.render_tree == old(ir).render_tree,
            same_but_handlers(*old(ir), *ir),
            h0 == old(ir).event_handlers@,
            toggles_appended(h0, ir.event_handlers@, item_toggles_args(v@.take(i as int), entries), collection_path@),
        decreases v.len() - i,
    {
        proof {
            assert(decreases_to!(v@ => v@[i as int]));
        }
        let ghost mid = ir.event_handlers@;
        item_handlers_expr(&v[i].value, ir, sources, collection_path);
        proof {
            lemma_toggles_appended_trans(
                h0,
                mid,
                ir.event_handlers@,
                item_toggles_args(v@.take(i as int), entries),
                item_toggles_expr(v@[i as int].value, entries),
                collection_path@,
            );
            assert(v@.take(i + 1).drop_last() =~= v@.take(i as int));
        }
        i = i + 1;
    }
    assert(v@.take(v@.len() as int) =~= v@);
}

fn item_handlers_bindings(v: &Vec<crate::hir::HirBinding>, ir: &mut AppIr, sources: &SourceInventory, collection_path: &String)
    requires
        app_ir_sound(*old(ir), sources.entries@),
    ensures
        app_ir_sound(*final(ir), sources.entries@),
        final(ir).render_tree == old(ir).render_tree,
        same_but_handlers(*old(ir), *final(ir)),
        toggles_appended(old(ir).event_handlers@, final(ir).event_handlers@, item_toggles_bindings(v@, sources.entries@), collection_path@),
    decreases v@, 1int,
{
    let ghost h0 = ir.event_handlers@;
    let ghost entries = sources.entries@;
    let mut i: usize = 0;
    proof {
        lemma_toggles_appended_refl(h0, collection_path@);
    }
    assert(v@.take(0) =~= Seq::<crate::hir::HirBinding>::empty());
    while i < v.len()
        invariant
            i <= v@.len(),
            entries == sources.entries@,
            app_ir_sound(*ir, sources.entries@),
            ir.render_tree == old(ir).render_tree,
            same_but_handlers(*old(ir), *ir),
            h0 == old(ir).event_handlers@,
            toggles_appended(h0, ir.event_handlers@, item_toggles_bindings(v@.take(i as int), entries), collection_path@),
        decreases v.len() - i,
    {
        proof {
            assert(decreases_to!(v@ => v@[i as int]));
        }
        let ghost mid = ir.event_handlers@;
        item_handlers_expr(&v[i].value, ir, sources, collection_path);
        proof {
            lemma_toggles_appended_trans(
                h0,
                mid,
                ir.event_handlers@,
                item_toggles_bindings(v@.take(i as int), entries),
                item_toggles_expr(v@[i as int].value, entries),
                collection_path@,
            );
            assert(v@.take(i + 1).drop_last() =~= v@.take(i as int));
        }
        i = i + 1;
    }
    assert(v@.take(v@.len() as int) =~= v@);
}

fn item_handlers_arms(v: &Vec<crate::hir::HirWhenArm>, ir: &mut AppIr, sources: &SourceInventory, collection_path: &String)
    requires
        app_ir_sound(*old(ir), sources.entries@),
    ensures
        app_ir_sound(*final(ir), sources.entries@),
        final(ir).render_tree == old(ir).render_tree,
        same_but_handlers(*old(ir), *final(ir)),
        toggles_appended(old(ir).event_handlers@, final(ir).event_handlers@, item_toggles_arms(v@, sources.entries@), collection_path@),
    decreases v@, 1int,
{
    let ghost h0 = ir.event_handlers@;
    let ghost entries = sources.entries@;
    let mut i: usize = 0;
    proof {
        lemma_toggles_appended_refl(h0, collection_path@);
    }
    assert(v@.take(0) =~= Seq::<crate::hir::HirWhenArm>::empty());
    while i < v.len()
        invariant
            i <= v@.len(),
            entries == sources.entries@,
            app_ir_sound(*ir, sources.entries@),
            ir.render_tree == old(ir).render_tree,
            same_but_handlers(*old(ir), *ir),
            h0 == old(ir).event_handlers@,
            toggles_appended(h0, ir.event_handlers@, item_toggles_arms(v@.take(i as int), entries), collection_path@),
        decreases v.len() - i,
    {
        proof {
            assert(decreases_to!(v@ => v@[i as int]));
        }
        let ghost mid = ir.event_handlers@;
        item_handlers_expr(&v[i].value, ir, sources, collection_path);
        proof {
            lemma_toggles_appended_trans(
                h0,
                mid,
                ir.event_handlers@,
                item_toggles_arms(v@.take(i as int), entries),
                item_toggles_expr(v@[i as int].value, entries),
                collection_path@,
            );
            assert(v@.take(i + 1).drop_last() =~= v@.take(i as int));
        }
        i = i + 1;
    }
    assert(v@.take(v@.len() as int) =~= v@);
}

/// Adds the toggle handlers of the records inside every function of the
/// module, updating `collection_path`.
pub fn push_item_state_handlers_from_hir(ir: &mut AppIr, sources: &SourceInventory, collection_path: &String, hir: &HirModule)
    requires
        app_ir_sound(*old(ir), sources.entries@),
    ensures
        app_ir_sound(*final(ir), sources.entries@),
        final(ir).render_tree == old(ir).render_tree,
        same_but_handlers(*old(ir), *final(ir)),
        toggles_appended(old(ir).event_handlers@, final(ir).event_handlers@, module_toggles(hir.items@, sources.entries@), collection_path@),
{
    let ghost h0 = ir.event_handlers@;
    let ghost entries = sources.entries@;
    let mut i: usize = 0;
    proof {
        lemma_toggles_appended_refl(h0, collection_path@);
    }
    assert(hir.items@.take(0) =~= Seq::<HirItem>::empty());
    while i < hir.items.len()
        invariant
            i <= hir.items@.len(),
            entries == sources.entries@,
            app_ir_sound(*ir, sources.entries@),
            ir.render_tree == old(ir).render_tree,
            same_but_handlers(*old(ir), *ir),
            h0 == old(ir).event_handlers@,
            toggles_appended(h0, ir.event_handlers@, module_toggles(hir.items@.take(i as int), entries), collection_path@),
        decreases hir.items.len() - i,
    {
        let ghost mid = ir.event_handlers@;
        let ghost own = if hir.items@[i as int] is Function {
            item_toggles_expr((hir.items@[i as int]->Function_0).body, entries)
        } else {
            Seq::empty()
        };
        match &hir.items[i] {
            HirItem::Function(f) => item_handlers_expr(&f.body, ir, sources, collection_path),
            _ => {
                proof {
                    lemma_toggles_appended_refl(mid, collection_path@);
                }
            },
        }
        proof {
            lemma_toggles_appended_trans(h0, mid, ir.event_handlers@, module_toggles(hir.items@.take(i as int), entries), own, collection_path@);
            assert(hir.items@.take(i + 1).drop_last() =~= hir.items@.take(i as int));
        }
        i = i + 1;
    }
    assert(hir.items@.take(hir.items@.len() as int) =~= hir.items@);
}

// ---------------------------------------------------------------------------
// The primary collection
// ---------------------------------------------------------------------------

/// The dynamic families of the first `n` entries, each once, in the order
/// they first occur.
pub open spec fn families_upto(entries: Seq<SourceEntry>, n: int) -> Seq<Seq<char>>
    decreases n,
{
    if n <= 0 || n > entries.len() {
        Seq::empty()
    } else {
        let before = families_upto(entries, n - 1);
        match crate::wiring::family_of_base(entries[n - 1].path@) {
            Some(f) => if before.contains(f) { before } else { before.push(f) },
            None => before,
        }
    }
}

/// The dynamic families of the inventory, each once, in order: the part of
/// a leaf path before `.sources.` where it holds `[*]`.
#[verifier::spinoff_prover]
#[verifier::rlimit(40)]
pub fn dynamic_source_families(sources: &SourceInventory) -> (r: Vec<String>)
    ensures
        views(r@) == families_upto(sources.entries@, sources.entries@.len() as int),
{
    let mut families: Vec<String> = Vec::new();
    let mut i: usize = 0;
    while i < sources.entries.len()
        invariant
            i <= sources.entries@.len(),
            views(families@) == families_upto(sources.entries@, i as int),
        decreases sources.entries.len() - i,
    {
        let ghost prev = families_upto(sources.entries@, i as int);
        let found = crate::wiring::dynamic_family_from_source_base(sources.entries[i].path.as_str());
        assert(families_upto(sources.entries@, i + 1) == match crate::wiring::family_of_base(sources.entries@[i as int].path@) {
            Some(f) => if prev.contains(f) { prev } else { prev.push(f) },
            None => prev,
        });
        match found {
            Some(family) => {
                let ghost before = views(families@);
                let mut seen = false;
                let mut k: usize = 0;
                while k < families.len()
                    invariant
                        k <= families@.len(),
                        before == views(families@),
                        seen <==> exists|j: int| 0 <= j < k && families@[j]@ == family@,
                    decreases families.len() - k,
                {
                    if string_eq(&families[k], &family) {
                        seen = true;
                    }
                    k = k + 1;
                }
                assert(seen <==> before.contains(family@)) by {
                    if seen {
                        let j = choose|j: int| 0 <= j < families@.len() && families@[j]@ == family@;
                        assert(before[j] == family@);
                    }
                    if before.contains(family@) {
                        let j = choose|j: int| 0 <= j < before.len() && before[j] == family@;
                        assert(families@[j]@ == family@);
                    }
                }
                if !seen {
                    proof {
                        crate::compiler::reads::lemma_views_push(families@, family);
                    }
                    families.push(family);
                }
            },
            None => {},
        }
        i = i + 1;
    }
    families
}

/// The root record of a dynamic family: the last dotted segment of its
/// path, without the `[*]`.
pub fn dynamic_family_root(family: &String) -> (r: String)
    ensures
        r@ == crate::wiring::family_root(family@),
{
    crate::wiring::dynamic_family_root(family.as_str())
}

// ---------------------------------------------------------------------------
// Keeping one copy of each entry
// ---------------------------------------------------------------------------

/// No two entries share a path.
pub open spec fn distinct_paths(p: Seq<Seq<char>>) -> bool {
    forall|i: int, j: int| 0 <= i < j < p.len() ==> p[i] != p[j]
}

pub open spec fn cell_paths(v: Seq<IrStateCell>) -> Seq<Seq<char>> {
    Seq::new(v.len(), |i: int| v[i].path@)
}

pub open spec fn list_paths(v: Seq<IrCollectionState>) -> Seq<Seq<char>> {
    Seq::new(v.len(), |i: int| v[i].path@)
}

pub open spec fn record_paths(v: Seq<IrStaticRecord>) -> Seq<Seq<char>> {
    Seq::new(v.len(), |i: int| v[i].path@)
}

/// Keeps the first state cell of each path.
fn dedupe_cells(v: Vec<IrStateCell>) -> (r: Vec<IrStateCell>)
    ensures
        distinct_paths(cell_paths(r@)),
        forall|i: int| 0 <= i < v@.len() ==> cell_paths(r@).contains(#[trigger] v@[i].path@),
{
    let ghost orig = v@;
    let mut src = v;
    let mut out: Vec<IrStateCell> = Vec::new();
    let n = src.len();
    let mut i: usize = 0;
    while i < n
        invariant
            i <= n == orig.len(),
            src@ == orig.subrange(i as int, n as int),
            distinct_paths(cell_paths(out@)),
            forall|k: int| 0 <= k < i ==> cell_paths(out@).contains(#[trigger] orig[k].path@),
        decreases n - i,
    {
        let c = src.remove(0);
        assert(c == orig[i as int]);
        let mut seen = false;
        let mut k: usize = 0;
        while k < out.len()
            invariant
                k <= out@.len(),
                seen <==> exists|m: int| 0 <= m < k && out@[m].path@ == c.path@,
            decreases out.len() - k,
        {
            if string_eq(&out[k].path, &c.path) {
                seen = true;
            }
            k = k + 1;
        }
        let ghost before = out@;
        let ghost cpath = c.path@;
        if !seen {
            out.push(c);
        }
        proof {
            assert(forall|m: int| 0 <= m < before.len() ==> out@[m] == before[m]);
            assert forall|k: int| 0 <= k < i + 1 implies cell_paths(out@).contains(#[trigger] orig[k].path@) by {
                if k < i {
                    assert(cell_paths(before).contains(orig[k].path@));
                    let m = choose|m: int| 0 <= m < cell_paths(before).len() && cell_paths(before)[m] == orig[k].path@;
                    assert(cell_paths(out@)[m] == orig[k].path@);
                } else if seen {
                    let m = choose|m: int| 0 <= m < before.len() && before[m].path@ == cpath;
                    assert(cell_paths(out@)[m] == orig[k].path@);
                } else {
                    assert(cell_paths(out@)[before.len() as int] == orig[k].path@);
                }
            }
            if !seen {
                assert forall|a: int, b: int| 0 <= a < b < cell_paths(out@).len() implies cell_paths(out@)[a] != cell_paths(out@)[b] by {
                    if b == before.len() {
                        assert(before[a].path@ != cpath);
                    } else {
                        assert(cell_paths(before)[a] != cell_paths(before)[b]);
                    }
                }
            }
        }
        assert(src@ =~= orig.subrange(i + 1, n as int));
        i = i + 1;
    }
    out
}

/// Keeps the first collection of each path.
fn dedupe_lists(v: Vec<IrCollectionState>) -> (r: Vec<IrCollectionState>)
    ensures
        distinct_paths(list_paths(r@)),
        forall|i: int| 0 <= i < v@.len() ==> list_paths(r@).contains(#[trigger] v@[i].path@),
{
    let ghost orig = v@;
    let mut src = v;
    let mut out: Vec<IrCollectionState> = Vec::new();
    let n = src.len();
    let mut i: usize = 0;
    while i < n
        invariant
            i <= n == orig.len(),
            src@ == orig.subrange(i as int, n as int),
            distinct_paths(list_paths(out@)),
            forall|k: int| 0 <= k < i ==> list_paths(out@).contains(#[trigger] orig[k].path@),
        decreases n - i,
    {
        let c = src.remove(0);
        assert(c == orig[i as int]);
        let mut seen = false;
        let mut k: usize = 0;
        while k < out.len()
            invariant
                k <= out@.len(),
                seen <==> exists|m: int| 0 <= m < k && out@[m].path@ == c.path@,
            decreases out.len() - k,
        {
            if string_eq(&out[k].path, &c.path) {
                seen = true;
            }
            k = k + 1;
        }
        let ghost before = out@;
        let ghost cpath = c.path@;
        if !seen {
            out.push(c);
        }
        proof {
            assert(forall|m: int| 0 <= m < before.len() ==> out@[m] == before[m]);
            assert forall|k: int| 0 <= k < i + 1 implies list_paths(out@).contains(#[trigger] orig[k].path@) by {
                if k < i {
                    assert(list_paths(before).contains(orig[k].path@));
                    let m = choose|m: int| 0 <= m < list_paths(before).len() && list_paths(before)[m] == orig[k].path@;
                    assert(list_paths(out@)[m] == orig[k].path@);
                } else if seen {
                    let m = choose|m: int| 0 <= m < before.len() && before[m].path@ == cpath;
                    assert(list_paths(out@)[m] == orig[k].path@);
                } else {
                    assert(list_paths(out@)[before.len() as int] == orig[k].path@);
                }
            }
            if !seen {
                assert forall|a: int, b: int| 0 <= a < b < list_paths(out@).len() implies list_paths(out@)[a] != list_paths(out@)[b] by {
                    if b == before.len() {
                        assert(before[a].path@ != cpath);
                    } else {
                        assert(list_paths(before)[a] != list_paths(before)[b]);
                    }
                }
            }
        }
        assert(src@ =~= orig.subrange(i + 1, n as int));
        i = i + 1;
    }
    out
}

/// Keeps the first static record of each path.
fn dedupe_records(v: Vec<IrStaticRecord>) -> (r: Vec<IrStaticRecord>)
    ensures
        distinct_paths(record_paths(r@)),
        forall|i: int| 0 <= i < v@.len() ==> record_paths(r@).contains(#[trigger] v@[i].path@),
{
    let ghost orig = v@;
    let mut src = v;
    let mut out: Vec<IrStaticRecord> = Vec::new();
    let n = src.len();
    let mut i: usize = 0;
    while i < n
        invariant
            i <= n == orig.len(),
            src@ == orig.subrange(i as int, n as int),
            distinct_paths(record_paths(out@)),
            forall|k: int| 0 <= k < i ==> record_paths(out@).contains(#[trigger] orig[k].path@),
        decreases n - i,
    {
        let c = src.remove(0);
        assert(c == orig[i as int]);
        let mut seen = false;
        let mut k: usize = 0;
        while k < out.len()
            invariant
                k <= out@.len(),
                seen <==> exists|m: int| 0 <= m < k && out@[m].path@ == c.path@,
            decreases out.len() - k,
        {
            if string_eq(&out[k].path, &c.path) {
                seen = true;
            }
            k = k + 1;
        }
        let ghost before = out@;
        let ghost cpath = c.path@;
        if !seen {
            out.push(c);
        }
        proof {
            assert(forall|m: int| 0 <= m < before.len() ==> out@[m] == before[m]);
            assert forall|k: int| 0 <= k < i + 1 implies record_paths(out@).contains(#[trigger] orig[k].path@) by {
                if k < i {
                    assert(record_paths(before).contains(orig[k].path@));
                    let m = choose|m: int| 0 <= m < record_paths(before).len() && record_paths(before)[m] == orig[k].path@;
                    assert(record_paths(out@)[m] == orig[k].path@);
                } else if seen {
                    let m = choose|m: int| 0 <= m < before.len() && before[m].path@ == cpath;
                    assert(record_paths(out@)[m] == orig[k].path@);
                } else {
                    assert(record_paths(out@)[before.len() as int] == orig[k].path@);
                }
            }
            if !seen {
                assert forall|a: int, b: int| 0 <= a < b < record_paths(out@).len() implies record_paths(out@)[a] != record_paths(out@)[b] by {
                    if b == before.len() {
                        assert(before[a].path@ != cpath);
                    } else {
                        assert(record_paths(before)[a] != record_paths(before)[b]);
                    }
                }
            }
        }
        assert(src@ =~= orig.subrange(i + 1, n as int));
        i = i + 1;
    }
    out
}

/// Whether some handler of `out` holds the same content as `h`.
fn handler_seen(h: &IrEventHandler, out: &Vec<IrEventHandler>) -> (r: bool)
    ensures
        r <==> exists|m: int| 0 <= m < out@.len() && same_handler(*h, out@[m]),
{
    let mut k: usize = 0;
    while k < out.len()
        invariant
            k <= out@.len(),
            forall|m: int| 0 <= m < k ==> !same_handler(*h, #[trigger] out@[m]),
        decreases out.len() - k,
    {
        if handler_eq(h, &out[k]) {
            return true;
        }
        k = k + 1;
    }
    false
}

/// Keeps the first handler of each content; every handler kept is one of
/// the given ones, so those on sources of the inventory stay on them.
/// The first `n` handlers of `s`, each kept unless a kept one has the same
/// content.
pub open spec fn first_handlers(s: Seq<IrEventHandler>, n: int) -> Seq<IrEventHandler>
    decreases n,
{
    if n <= 0 {
        Seq::empty()
    } else {
        let kept = first_handlers(s, n - 1);
        if exists|m: int| 0 <= m < kept.len() && same_handler(s[n - 1], kept[m]) {
            kept
        } else {
            kept.push(s[n - 1])
        }
    }
}

fn dedupe_handlers(v: Vec<IrEventHandler>, Ghost(entries): Ghost<Seq<SourceEntry>>) -> (r: Vec<IrEventHandler>)
    requires
        forall|i: int| 0 <= i < v@.len() ==> in_inventory(entries, (#[trigger] v@[i]).source_path@),
    ensures
        forall|i: int, j: int| 0 <= i < j < r@.len() ==> !same_handler(r@[i], r@[j]),
        forall|j: int| 0 <= j < r@.len() ==> in_inventory(entries, (#[trigger] r@[j]).source_path@),
        r@.len() <= v@.len(),
        r@ == first_handlers(v@, v@.len() as int),
{
    let ghost orig = v@;
    let mut src = v;
    let mut out: Vec<IrEventHandler> = Vec::new();
    let n = src.len();
    let mut i: usize = 0;
    while i < n
        invariant
            i <= n == orig.len(),
            src@ == orig.subrange(i as int, n as int),
            forall|k: int| 0 <= k < orig.len() ==> in_inventory(entries, (#[trigger] orig[k]).source_path@),
            forall|a: int, b: int| 0 <= a < b < out@.len() ==> !same_handler(out@[a], out@[b]),
            forall|j: int| 0 <= j < out@.len() ==> in_inventory(entries, (#[trigger] out@[j]).source_path@),
            out@.len() <= i,
            out@ == first_handlers(orig, i as int),
        decreases n - i,
    {
        let h = src.remove(0);
        assert(h == orig[i as int]);
        let seen = handler_seen(&h, &out);
        let ghost before = out@;
        let ghost gh = h;
        if !seen {
            out.push(h);
        }
        proof {
            assert(forall|m: int| 0 <= m < before.len() ==> out@[m] == before[m]);
            if !seen {
                assert forall|a: int, b: int| 0 <= a < b < out@.len() implies !same_handler(out@[a], out@[b]) by {
                    if b == before.len() {
                        assert(!same_handler(gh, before[a]));
                        lemma_same_handler_sym(before[a], gh);
                    } else {
                        assert(!same_handler(before[a], before[b]));
                    }
                }
            }
            assert forall|j: int| 0 <= j < out@.len() implies in_inventory(entries, (#[trigger] out@[j]).source_path@) by {
                if j < before.len() {
                    assert(out@[j] == before[j]);
                } else {
                    assert(out@[j] == orig[i as int]);
                }
            }
        }
        assert(src@ =~= orig.subrange(i + 1, n as int));
        i = i + 1;
    }
    out
}

/// Keeps one copy of each entry: the first state cell, collection and
/// static record of each path, and the first handler of each content.
fn dedupe_app_ir(ir: &mut AppIr, Ghost(entries): Ghost<Seq<SourceEntry>>)
    requires
        forall|i: int| 0 <= i < old(ir).event_handlers@.len() ==> in_inventory(entries, (#[trigger] old(ir).event_handlers@[i]).source_path@),
    ensures
        forall|i: int| 0 <= i < final(ir).event_handlers@.len() ==> in_inventory(entries, (#[trigger] final(ir).event_handlers@[i]).source_path@),
        distinct_paths(cell_paths(final(ir).state_cells@)),
        distinct_paths(list_paths(final(ir).collection_states@)),
        distinct_paths(record_paths(final(ir).static_records@)),
        forall|i: int, j: int| 0 <= i < j < final(ir).event_handlers@.len() ==> !same_handler(final(ir).event_handlers@[i], final(ir).event_handlers@[j]),
        forall|i: int| 0 <= i < old(ir).state_cells@.len() ==> cell_paths(final(ir).state_cells@).contains(#[trigger] old(ir).state_cells@[i].path@),
        final(ir).render_tree == old(ir).render_tree,
        final(ir).event_handlers@ == first_handlers(old(ir).event_handlers@, old(ir).event_handlers@.len() as int),
{
    let mut cells: Vec<IrStateCell> = Vec::new();
    std::mem::swap(&mut cells, &mut ir.state_cells);
    ir.state_cells = dedupe_cells(cells);
    let mut lists: Vec<IrCollectionState> = Vec::new();
    std::mem::swap(&mut lists, &mut ir.collection_states);
    ir.collection_states = dedupe_lists(lists);
    let mut records: Vec<IrStaticRecord> = Vec::new();
    std::mem::swap(&mut records, &mut ir.static_records);
    ir.static_records = dedupe_records(records);
    let mut handlers: Vec<IrEventHandler> = Vec::new();
    std::mem::swap(&mut handlers, &mut ir.event_handlers);
    ir.event_handlers = dedupe_handlers(handlers, Ghost(entries));
}

/// The key of the first record from item `i` on whose value is a list.
pub open spec fn first_list_from(items: Seq<HirItem>, i: int) -> Option<Seq<char>>
    decreases items.len() - i,
{
    if i < 0 || i >= items.len() {
        None
    } else {
        match items[i] {
            HirItem::Record(rec) => if rec.value matches Some(v) && list_pipeline(v) {
                Some(rec.key@)
            } else {
                first_list_from(items, i + 1)
            },
            _ => first_list_from(items, i + 1),
        }
    }
}

/// The collection that item toggles update: the first list record, else
/// the root of the first dynamic family, else `records`.
pub open spec fn primary_collection(items: Seq<HirItem>, entries: Seq<SourceEntry>) -> Seq<char> {
    match first_list_from(items, 0) {
        Some(k) => k,
        None => {
            let fs = families_upto(entries, entries.len() as int);
            if fs.len() > 0 { crate::wiring::family_root(fs[0]) } else { "records"@ }
        },
    }
}

/// How many handlers item `item` gives: an accumulator's, one per list
/// stage that gives one, one per pressable view selector.
pub open spec fn item_handler_count(item: HirItem, items: Seq<HirItem>, entries: Seq<SourceEntry>) -> int {
    match item {
        HirItem::Record(rec) => {
            let st = record_stages(rec);
            (if accumulator_of(rec, entries) is Some { 1int } else { 0int }) + handler_stages(st, items, entries, st.len() as int).len()
                + view_selectors(rec, entries).len()
        },
        _ => 0,
    }
}

/// How many handlers the first `n` items give.
pub open spec fn handler_count(items: Seq<HirItem>, entries: Seq<SourceEntry>, n: int) -> int
    decreases n,
{
    if n <= 0 {
        0
    } else {
        handler_count(items, entries, n - 1) + item_handler_count(items[n - 1], items, entries)
    }
}

pub proof fn lemma_handler_count_mono(items: Seq<HirItem>, entries: Seq<SourceEntry>, a: int, b: int)
    requires
        0 <= a <= b,
    ensures
        handler_count(items, entries, a) <= handler_count(items, entries, b),
    decreases b - a,
{
    if a < b {
        lemma_handler_count_mono(items, entries, a, b - 1);
    }
}

/// The handlers of record `rec` stand in `all` from `off` on: its
/// accumulator's, then one per list stage that gives one, then one per
/// pressable view selector.
#[verifier::opaque]
pub open spec fn record_handlers_at(all: Seq<IrEventHandler>, off: int, rec: HirRecord, items: Seq<HirItem>, entries: Seq<SourceEntry>) -> bool {
    let na: int = if accumulator_of(rec, entries) is Some { 1 } else { 0 };
    let st = record_stages(rec);
    let hs = handler_stages(st, items, entries, st.len() as int);
    let sel = view_selectors(rec, entries);
    &&& 0 <= off
    &&& off + na + hs.len() + sel.len() <= all.len()
    &&& match accumulator_of(rec, entries) {
        Some((p, _, step)) => accumulator_handler(all[off], rec.key@, p, step),
        None => true,
    }
    &&& forall|x: int| off + na <= x < off + na + hs.len() ==> list_handler_ok(#[trigger] all[x], hs[x - off - na], rec.key@, items, entries)
    &&& forall|x: int| off + na + hs.len() <= x < off + na + hs.len() + sel.len() ==> selector_handler(#[trigger] all[x], sel[x - off - na - hs.len()])
}

pub proof fn lemma_record_handlers_grow(a: Seq<IrEventHandler>, b: Seq<IrEventHandler>, off: int, rec: HirRecord, items: Seq<HirItem>, entries: Seq<SourceEntry>)
    requires
        record_handlers_at(a, off, rec, items, entries),
        a.len() <= b.len(),
        b.take(a.len() as int) == a,
    ensures
        record_handlers_at(b, off, rec, items, entries),
{
    reveal(record_handlers_at);
    assert forall|x: int| 0 <= x < a.len() implies b[x] == a[x] by {
        assert(b.take(a.len() as int)[x] == b[x]);
    }
    let na: int = if accumulator_of(rec, entries) is Some { 1 } else { 0 };
    let st = record_stages(rec);
    let hs = handler_stages(st, items, entries, st.len() as int);
    let sel = view_selectors(rec, entries);
    if accumulator_of(rec, entries) is Some {
        assert(b[off] == a[off]);
    }
    assert forall|x: int| off + na <= x < off + na + hs.len() implies list_handler_ok(#[trigger] b[x], hs[x - off - na], rec.key@, items, entries) by {
        assert(b[x] == a[x]);
    }
    assert forall|x: int| off + na + hs.len() <= x < off + na + hs.len() + sel.len() implies selector_handler(#[trigger] b[x], sel[x - off - na - hs.len()]) by {
        assert(b[x] == a[x]);
    }
}

/// One record item's handlers: after the accumulator's, the list
/// stages' and the selectors' are appended, the record's handlers stand
/// at its offset and the earlier records' stay where they were.
#[verifier::spinoff_prover]
#[verifier::rlimit(100)]
proof fn lemma_record_step(
    h0: Seq<IrEventHandler>,
    h1: Seq<IrEventHandler>,
    h2: Seq<IrEventHandler>,
    h3: Seq<IrEventHandler>,
    rec: HirRecord,
    items: Seq<HirItem>,
    entries: Seq<SourceEntry>,
    i: int,
)
    requires
        0 <= i < items.len(),
        items[i] == HirItem::Record(rec),
        h0.len() == handler_count(items, entries, i),
        forall|k: int| 0 <= k < i && (#[trigger] items[k]) is Record ==> record_handlers_at(
            h0,
            handler_count(items, entries, k),
            items[k]->Record_0,
            items,
            entries,
        ),
        match accumulator_of(rec, entries) {
            Some((p, _, step)) => h1 == h0.push(h1.last()) && accumulator_handler(h1.last(), rec.key@, p, step),
            None => h1 == h0,
        },
        list_handlers_appended(
            h1,
            h2,
            handler_stages(record_stages(rec), items, entries, record_stages(rec).len() as int),
            rec.key@,
            items,
            entries,
        ),
        ({
            let sel = view_selectors(rec, entries);
            let n = h2.len();
            &&& h3.len() == n + sel.len()
            &&& h3.take(n as int) == h2
            &&& forall|j: int| 0 <= j < sel.len() ==> selector_handler(#[trigger] h3[n + j], sel[j])
        }),
    ensures
        h3.len() == handler_count(items, entries, i + 1),
        forall|k: int| 0 <= k < i + 1 && (#[trigger] items[k]) is Record ==> record_handlers_at(
            h3,
            handler_count(items, entries, k),
            items[k]->Record_0,
            items,
            entries,
        ),
{
    reveal(record_handlers_at);
    let off = h0.len() as int;
    let na: int = if accumulator_of(rec, entries) is Some { 1 } else { 0 };
    let st = record_stages(rec);
    let hs = handler_stages(st, items, entries, st.len() as int);
    let sel = view_selectors(rec, entries);
    assert(h1.len() == off + na);
    assert forall|x: int| 0 <= x < h2.len() implies h3[x] == h2[x] by {
        assert(h3.take(h2.len() as int)[x] == h3[x]);
    }
    assert forall|x: int| 0 <= x < h1.len() implies h2[x] == h1[x] by {
        assert(h2.take(h1.len() as int)[x] == h2[x]);
    }
    assert forall|x: int| 0 <= x < h0.len() implies h1[x] == h0[x] by {
        if na == 1 {
            assert(h0.push(h1.last())[x] == h0[x]);
        }
    }
    assert forall|x: int| off + na <= x < off + na + hs.len() implies list_handler_ok(#[trigger] h3[x], hs[x - off - na], rec.key@, items, entries) by {
        assert(h2[h1.len() + (x - off - na)] == h2[x]);
    }
    assert forall|x: int| off + na + hs.len() <= x < off + na + hs.len() + sel.len() implies selector_handler(#[trigger] h3[x], sel[x - off - na - hs.len()]) by {
        assert(h3[h2.len() + (x - off - na - hs.len())] == h3[x]);
    }
    if na == 1 {
        assert(h3[off] == h1[off]);
    }
    assert(record_handlers_at(h3, off, rec, items, entries));
    assert(h3.take(h0.len() as int) =~= h0);
    assert forall|k: int| 0 <= k < i + 1 && (#[trigger] items[k]) is Record implies record_handlers_at(
        h3,
        handler_count(items, entries, k),
        items[k]->Record_0,
        items,
        entries,
    ) by {
        if k < i {
            lemma_record_handlers_grow(h0, h3, handler_count(items, entries, k), items[k]->Record_0, items, entries);
        }
    }
}

/// The event handlers before deduplication: those of each record item in
/// order, then the item toggles on the primary collection.
pub open spec fn module_handlers(all: Seq<IrEventHandler>, items: Seq<HirItem>, entries: Seq<SourceEntry>) -> bool {
    let c = handler_count(items, entries, items.len() as int);
    &&& 0 <= c <= all.len()
    &&& forall|k: int| 0 <= k < items.len() && (#[trigger] items[k]) is Record ==> record_handlers_at(
        all,
        handler_count(items, entries, k),
        items[k]->Record_0,
        items,
        entries,
    )
    &&& toggles_appended(all.take(c), all, module_toggles(items, entries), primary_collection(items, entries))
}

/// Where `item` is a record that accumulates, a state cell holds its key.
pub open spec fn accumulator_cell_kept(item: HirItem, cells: Seq<IrStateCell>, entries: Seq<SourceEntry>) -> bool {
    match item {
        HirItem::Record(rec) => accumulator_of(rec, entries) is Some ==> exists|k: int|
            0 <= k < cells.len() && (#[trigger] cells[k]).path@ == rec.key@,
        _ => true,
    }
}

proof fn lemma_cell_kept_grows(item: HirItem, a: Seq<IrStateCell>, b: Seq<IrStateCell>, entries: Seq<SourceEntry>)
    requires
        accumulator_cell_kept(item, a, entries),
        a.len() <= b.len(),
        b.take(a.len() as int) == a,
    ensures
        accumulator_cell_kept(item, b, entries),
{
    if item is Record {
        let rec = item->Record_0;
        if accumulator_of(rec, entries) is Some {
            let k = choose|k: int| 0 <= k < a.len() && (#[trigger] a[k]).path@ == rec.key@;
            assert(b.take(a.len() as int)[k] == b[k]);
        }
    }
}

/// The app IR of a module: per top-level record its counter, collection,
/// static record and list and selector handlers; then the toggle handlers
/// of item functions over the primary collection (the first list record,
/// else the root of the first dynamic family, else `records`); the render
/// tree; one copy of each entry.
#[verifier::spinoff_prover]
#[verifier::rlimit(100)]
/// What the app IR of a module is: sound against the inventory, without
/// duplicate cells, collections, records or handlers; the render tree
/// there exactly when the module has a document root; a state cell for
/// every accumulating record; and the handlers those of `module_handlers`,
/// deduplicated.
pub open spec fn app_ir_result(r: AppIr, hir: HirModule, entries: Seq<SourceEntry>) -> bool {
    &&& app_ir_sound(r, entries)
    &&& distinct_paths(cell_paths(r.state_cells@))
    &&& distinct_paths(list_paths(r.collection_states@))
    &&& distinct_paths(record_paths(r.static_records@))
    &&& forall|i: int, j: int| 0 <= i < j < r.event_handlers@.len() ==> !same_handler(r.event_handlers@[i], r.event_handlers@[j])
    &&& (r.render_tree is Some <==> super::render::document_root(hir) is Some)
    &&& super::render::tree_result(r.render_tree, hir, entries)
    &&& forall|j: int| 0 <= j < hir.items@.len() ==> accumulator_cell_kept(#[trigger] hir.items@[j], r.state_cells@, entries)
    &&& exists|all: Seq<IrEventHandler>| module_handlers(all, hir.items@, entries)
        && r.event_handlers@ == first_handlers(all, all.len() as int)
}

pub fn app_ir_from_hir(hir: &HirModule, sources: &SourceInventory) -> (r: AppIr)
    ensures
        app_ir_sound(r, sources.entries@),
        distinct_paths(cell_paths(r.state_cells@)),
        distinct_paths(list_paths(r.collection_states@)),
        distinct_paths(record_paths(r.static_records@)),
        forall|i: int, j: int| 0 <= i < j < r.event_handlers@.len() ==> !same_handler(r.event_handlers@[i], r.event_handlers@[j]),
        r.render_tree is Some <==> super::render::document_root(*hir) is Some,
        super::render::tree_result(r.render_tree, *hir, sources.entries@),
        forall|j: int| 0 <= j < hir.items@.len() ==> accumulator_cell_kept(#[trigger] hir.items@[j], r.state_cells@, sources.entries@),
        exists|all: Seq<IrEventHandler>| module_handlers(all, hir.items@, sources.entries@)
            && r.event_handlers@ == first_handlers(all, all.len() as int),
{
    let mut ir = AppIr {
        state_cells: Vec::new(),
        collection_states: Vec::new(),
        static_records: Vec::new(),
        event_handlers: Vec::new(),
        render_tree: None,
    };
    let ghost items = hir.items@;
    let mut primary: Option<String> = None;
    let mut i: usize = 0;
    while i < hir.items.len()
        invariant
            i <= hir.items@.len(),
            items == hir.items@,
            match primary {
                Some(p) => first_list_from(items, 0) == Some(p@),
                None => first_list_from(items, 0) == first_list_from(items, i as int),
            },
        decreases hir.items.len() - i,
    {
        match &hir.items[i] {
            HirItem::Record(record) => {
                if primary.is_none() && record_value_is_list(record) {
                    primary = Some(record.key.clone());
                }
            },
            _ => {},
        }
        i = i + 1;
    }
    let primary_collection_path = match primary {
        Some(p) => p,
        None => {
            let families = dynamic_source_families(sources);
            if families.len() > 0 {
                assert(views(families@)[0] == families@[0]@);
                dynamic_family_root(&families[0])
            } else {
                "records".to_owned()
            }
        },
    };
    let ghost entries = sources.entries@;
    assert(primary_collection_path@ == primary_collection(items, entries));
    let mut i: usize = 0;
    while i < hir.items.len()
        invariant
            i <= hir.items@.len(),
            entries == sources.entries@,
            app_ir_sound(ir, entries),
            ir.render_tree is None,
            forall|j: int| 0 <= j < i ==> accumulator_cell_kept(#[trigger] hir.items@[j], ir.state_cells@, entries),
            items == hir.items@,
            ir.event_handlers@.len() == handler_count(items, entries, i as int),
            forall|k: int| 0 <= k < i && (#[trigger] items[k]) is Record ==> record_handlers_at(
                ir.event_handlers@,
                handler_count(items, entries, k),
                items[k]->Record_0,
                items,
                entries,
            ),
        decreases hir.items.len() - i,
    {
        let ghost cells0 = ir.state_cells@;
        let ghost h0 = ir.event_handlers@;
        let ghost off = handler_count(items, entries, i as int);
        match &hir.items[i] {
            HirItem::Record(record) => {
                match accumulator_from_hir_record(record, sources) {
                    Some((event_path, initial, step)) => {
                        let ghost before = ir;
                        push_accumulator_ir(&mut ir, &event_path, &record.key, initial, step);
                        proof {
                            assert forall|k: int| 0 <= k < ir.event_handlers@.len() implies in_inventory(entries, (#[trigger] ir.event_handlers@[k]).source_path@) by {
                                if k < before.event_handlers@.len() {
                                    assert(ir.event_handlers@[k] == before.event_handlers@[k]);
                                }
                            }
                        }
                    },
                    None => {},
                }
                let ghost h1 = ir.event_handlers@;
                push_collection_state_from_hir_record(&mut ir, hir, record);
                push_static_record_from_hir_record(&mut ir, record);
                assert(ir.event_handlers@ == h1);
                push_collection_handlers_from_hir_record(&mut ir, hir, sources, record);
                let ghost h2 = ir.event_handlers@;
                push_selector_handlers_from_hir_record(&mut ir, sources, record);
                let ghost h3 = ir.event_handlers@;
                proof {
                    assert(items[i as int] == HirItem::Record(*record));
                    lemma_record_step(h0, h1, h2, h3, *record, items, entries, i as int);
                }
            },
            _ => {},
        }
        proof {
            assert(ir.state_cells@.len() >= cells0.len());
            assert(ir.state_cells@.take(cells0.len() as int) == cells0);
            assert forall|j: int| 0 <= j < i + 1 implies accumulator_cell_kept(#[trigger] hir.items@[j], ir.state_cells@, entries) by {
                if j < i {
                    lemma_cell_kept_grows(hir.items@[j], cells0, ir.state_cells@, entries);
                }
            }
        }
        i = i + 1;
    }
    let ghost cells1 = ir.state_cells@;
    let ghost g0 = ir.event_handlers@;
    push_item_state_handlers_from_hir(&mut ir, sources, &primary_collection_path, hir);
    let ghost all = ir.event_handlers@;
    proof {
        assert forall|k: int| 0 <= k < items.len() && (#[trigger] items[k]) is Record implies record_handlers_at(
            all,
            handler_count(items, entries, k),
            items[k]->Record_0,
            items,
            entries,
        ) by {
            lemma_record_handlers_grow(g0, all, handler_count(items, entries, k), items[k]->Record_0, items, entries);
        }
        assert(module_handlers(all, items, entries));
    }
    ir.render_tree = render_tree_from_hir(hir, sources);
    proof {
        assert(ir.state_cells@ == cells1);
        assert(ir.state_cells@.take(cells1.len() as int) =~= cells1);
        assert forall|j: int| 0 <= j < hir.items@.len() implies accumulator_cell_kept(#[trigger] hir.items@[j], ir.state_cells@, entries) by {
            lemma_cell_kept_grows(hir.items@[j], cells1, ir.state_cells@, entries);
        }
    }
    let ghost cells2 = ir.state_cells@;
    assert(ir.event_handlers@ == all);
    dedupe_app_ir(&mut ir, Ghost(entries));
    assert(ir.event_handlers@ == first_handlers(all, all.len() as int));
    proof {
        assert forall|j: int| 0 <= j < hir.items@.len() implies accumulator_cell_kept(#[trigger] hir.items@[j], ir.state_cells@, entries) by {
            if hir.items@[j] is Record {
                let rec = hir.items@[j]->Record_0;
                if accumulator_of(rec, entries) is Some {
                    let k = choose|k: int| 0 <= k < cells2.len() && cells2[k].path@ == rec.key@;
                    assert(cell_paths(ir.state_cells@).contains(cells2[k].path@));
                    let m = choose|m: int| 0 <= m < cell_paths(ir.state_cells@).len() && cell_paths(ir.state_cells@)[m] == cells2[k].path@;
                    assert(ir.state_cells@[m].path@ == rec.key@);
                }
            }
        }
    }
    ir
}

} // verus!
