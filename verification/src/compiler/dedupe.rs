//! Keeping one copy of each app IR entry: state cells, collections and
//! static records by path, event handlers by their whole content.
use vstd::prelude::*;
use crate::text::{string_eq};
use super::{
    AppIr, IrCollectionFieldAssignment, IrCollectionPredicate, IrCollectionState, IrCollectionValueExpr,
    IrEffect, IrEventHandler, IrPredicate, IrStateCell, IrStaticField, IrStaticRecord, IrStaticValue, IrValueExpr,
};
use super::statics::{fields_model, static_model, StaticModel};

verus! {

// ---------------------------------------------------------------------------
// Equality of IR values
// ---------------------------------------------------------------------------

pub open spec fn same_value_expr(a: IrValueExpr, b: IrValueExpr) -> bool
    decreases a,
{
    match (a, b) {
        (IrValueExpr::Number { value: x }, IrValueExpr::Number { value: y }) => x == y,
        (IrValueExpr::Hold { state_path: x }, IrValueExpr::Hold { state_path: y }) => x@ == y@,
        (IrValueExpr::Add { left: l1, right: r1 }, IrValueExpr::Add { left: l2, right: r2 }) =>
            same_value_expr(*l1, *l2) && same_value_expr(*r1, *r2),
        (IrValueExpr::Source { path: x }, IrValueExpr::Source { path: y }) => x@ == y@,
        (IrValueExpr::Skip, IrValueExpr::Skip) => true,
        _ => false,
    }
}

pub open spec fn same_coll_value(a: IrCollectionValueExpr, b: IrCollectionValueExpr) -> bool {
    match (a, b) {
        (IrCollectionValueExpr::Static { value: x }, IrCollectionValueExpr::Static { value: y }) => static_model(x) == static_model(y),
        (IrCollectionValueExpr::SourceText { path: p1, trim: t1 }, IrCollectionValueExpr::SourceText { path: p2, trim: t2 }) => p1@ == p2@ && t1 == t2,
        (IrCollectionValueExpr::NotOwnerBoolField { field: x }, IrCollectionValueExpr::NotOwnerBoolField { field: y }) => x@ == y@,
        (IrCollectionValueExpr::NotAllBoolField { field: x }, IrCollectionValueExpr::NotAllBoolField { field: y }) => x@ == y@,
        _ => false,
    }
}

pub open spec fn same_assignments(a: Seq<IrCollectionFieldAssignment>, b: Seq<IrCollectionFieldAssignment>) -> bool {
    a.len() == b.len() && forall|i: int| 0 <= i < a.len() ==> (#[trigger] a[i]).field@ == b[i].field@ && same_coll_value(a[i].value, b[i].value)
}

pub open spec fn same_opt_text(a: Option<String>, b: Option<String>) -> bool {
    match (a, b) {
        (Some(x), Some(y)) => x@ == y@,
        (None, None) => true,
        _ => false,
    }
}

pub open spec fn same_effect(a: IrEffect, b: IrEffect) -> bool {
    match (a, b) {
        (IrEffect::Assign { state_path: p1, expr: e1 }, IrEffect::Assign { state_path: p2, expr: e2 }) =>
            p1@ == p2@ && same_value_expr(e1, e2),
        (IrEffect::CollectionAppendRecord { collection_path: c1, fields: f1, skip_if_empty_field: s1 },
            IrEffect::CollectionAppendRecord { collection_path: c2, fields: f2, skip_if_empty_field: s2 }) =>
            c1@ == c2@ && same_assignments(f1@, f2@) && same_opt_text(s1, s2),
        (IrEffect::CollectionUpdateAllFields { collection_path: c1, field: f1, value: v1 },
            IrEffect::CollectionUpdateAllFields { collection_path: c2, field: f2, value: v2 }) =>
            c1@ == c2@ && f1@ == f2@ && same_coll_value(v1, v2),
        (IrEffect::CollectionUpdateOwnerField { collection_path: c1, field: f1, value: v1 },
            IrEffect::CollectionUpdateOwnerField { collection_path: c2, field: f2, value: v2 }) =>
            c1@ == c2@ && f1@ == f2@ && same_coll_value(v1, v2),
        (IrEffect::CollectionRemoveCurrent { collection_path: c1 }, IrEffect::CollectionRemoveCurrent { collection_path: c2 }) =>
            c1@ == c2@,
        (IrEffect::CollectionRemoveWhere { collection_path: c1, predicate: IrCollectionPredicate::FieldBoolEquals { field: f1, value: v1 } },
            IrEffect::CollectionRemoveWhere { collection_path: c2, predicate: IrCollectionPredicate::FieldBoolEquals { field: f2, value: v2 } }) =>
            c1@ == c2@ && f1@ == f2@ && v1 == v2,
        (IrEffect::SetTagState { state_path: p1, value: v1 }, IrEffect::SetTagState { state_path: p2, value: v2 }) =>
            p1@ == p2@ && v1@ == v2@,
        (IrEffect::ClearText { text_state_path: p1 }, IrEffect::ClearText { text_state_path: p2 }) => p1@ == p2@,
        _ => false,
    }
}

pub open spec fn same_when(a: Option<IrPredicate>, b: Option<IrPredicate>) -> bool {
    match (a, b) {
        (Some(IrPredicate::SourceTagEquals { path: p1, tag: t1 }), Some(IrPredicate::SourceTagEquals { path: p2, tag: t2 })) =>
            p1@ == p2@ && t1@ == t2@,
        (None, None) => true,
        _ => false,
    }
}

/// Two event handlers hold the same content.
pub closed spec fn same_handler(a: IrEventHandler, b: IrEventHandler) -> bool {
    &&& a.source_path@ == b.source_path@
    &&& same_when(a.when, b.when)
    &&& a.effects@.len() == b.effects@.len()
    &&& forall|i: int| 0 <= i < a.effects@.len() ==> same_effect(#[trigger] a.effects@[i], b.effects@[i])
}

fn value_expr_eq(a: &IrValueExpr, b: &IrValueExpr) -> (r: bool)
    ensures
        r == same_value_expr(*a, *b),
    decreases a,
{
    match (a, b) {
        (IrValueExpr::Number { value: x }, IrValueExpr::Number { value: y }) => *x == *y,
        (IrValueExpr::Hold { state_path: x }, IrValueExpr::Hold { state_path: y }) => string_eq(x, y),
        (IrValueExpr::Add { left: l1, right: r1 }, IrValueExpr::Add { left: l2, right: r2 }) =>
            value_expr_eq(l1, l2) && value_expr_eq(r1, r2),
        (IrValueExpr::Source { path: x }, IrValueExpr::Source { path: y }) => string_eq(x, y),
        (IrValueExpr::Skip, IrValueExpr::Skip) => true,
        _ => false,
    }
}

/// Whether two static values are equal.
#[verifier::loop_isolation(false)]
pub fn static_eq(a: &IrStaticValue, b: &IrStaticValue) -> (r: bool)
    ensures
        r == (static_model(*a) == static_model(*b)),
    decreases a,
{
    match (a, b) {
        (IrStaticValue::Text { value: x }, IrStaticValue::Text { value: y }) => string_eq(x, y),
        (IrStaticValue::Number { value: x }, IrStaticValue::Number { value: y }) => *x == *y,
        (IrStaticValue::Bool { value: x }, IrStaticValue::Bool { value: y }) => *x == *y,
        (IrStaticValue::Tag { value: x }, IrStaticValue::Tag { value: y }) => string_eq(x, y),
        (IrStaticValue::Path { value: x }, IrStaticValue::Path { value: y }) => string_eq(x, y),
        (IrStaticValue::Range { from: f1, to: t1 }, IrStaticValue::Range { from: f2, to: t2 }) => *f1 == *f2 && *t1 == *t2,
        (IrStaticValue::Record { fields: f1 }, IrStaticValue::Record { fields: f2 }) => {
            if f1.len() != f2.len() {
                proof {
                    assert(static_model(*a)->Record_0.len() != static_model(*b)->Record_0.len());
                }
                return false;
            }
            let mut i: usize = 0;
            while i < f1.len()
                invariant
                    i <= f1@.len(),
                    f1@.len() == f2@.len(),
                    forall|k: int| 0 <= k < i ==> (#[trigger] f1@[k]).key@ == f2@[k].key@
                        && static_model(f1@[k].value) == static_model(f2@[k].value),
                decreases f1.len() - i,
            {
                proof {
                    assert(decreases_to!(f1@ => f1@[i as int]));
                    assert(decreases_to!(f1@[i as int] => f1@[i as int].value));
                }
                if !string_eq(&f1[i].key, &f2[i].key) || !static_eq(&f1[i].value, &f2[i].value) {
                    proof {
                        assert(static_model(*a)->Record_0[i as int] != static_model(*b)->Record_0[i as int]);
                    }
                    return false;
                }
                i = i + 1;
            }
            proof {
                assert(static_model(*a)->Record_0 =~= static_model(*b)->Record_0);
            }
            true
        },
        (IrStaticValue::List { items: i1 }, IrStaticValue::List { items: i2 }) => {
            if i1.len() != i2.len() {
                proof {
                    assert(static_model(*a)->List_0.len() != static_model(*b)->List_0.len());
                }
                return false;
            }
            let mut i: usize = 0;
            while i < i1.len()
                invariant
                    i <= i1@.len(),
                    i1@.len() == i2@.len(),
                    forall|k: int| 0 <= k < i ==> static_model(#[trigger] i1@[k]) == static_model(i2@[k]),
                decreases i1.len() - i,
            {
                proof {
                    assert(decreases_to!(i1@ => i1@[i as int]));
                }
                if !static_eq(&i1[i], &i2[i]) {
                    proof {
                        assert(static_model(*a)->List_0[i as int] != static_model(*b)->List_0[i as int]);
                    }
                    return false;
                }
                i = i + 1;
            }
            proof {
                assert(static_model(*a)->List_0 =~= static_model(*b)->List_0);
            }
            true
        },
        _ => false,
    }
}

fn coll_value_eq(a: &IrCollectionValueExpr, b: &IrCollectionValueExpr) -> (r: bool)
    ensures
        r == same_coll_value(*a, *b),
{
    match (a, b) {
        (IrCollectionValueExpr::Static { value: x }, IrCollectionValueExpr::Static { value: y }) => static_eq(x, y),
        (IrCollectionValueExpr::SourceText { path: p1, trim: t1 }, IrCollectionValueExpr::SourceText { path: p2, trim: t2 }) =>
            string_eq(p1, p2) && *t1 == *t2,
        (IrCollectionValueExpr::NotOwnerBoolField { field: x }, IrCollectionValueExpr::NotOwnerBoolField { field: y }) => string_eq(x, y),
        (IrCollectionValueExpr::NotAllBoolField { field: x }, IrCollectionValueExpr::NotAllBoolField { field: y }) => string_eq(x, y),
        _ => false,
    }
}

fn assignments_eq(a: &Vec<IrCollectionFieldAssignment>, b: &Vec<IrCollectionFieldAssignment>) -> (r: bool)
    ensures
        r == same_assignments(a@, b@),
{
    if a.len() != b.len() {
        return false;
    }
    let mut i: usize = 0;
    while i < a.len()
        invariant
            i <= a@.len(),
            a@.len() == b@.len(),
            forall|k: int| 0 <= k < i ==> (#[trigger] a@[k]).field@ == b@[k].field@ && same_coll_value(a@[k].value, b@[k].value),
        decreases a.len() - i,
    {
        if !string_eq(&a[i].field, &b[i].field) || !coll_value_eq(&a[i].value, &b[i].value) {
            return false;
        }
        i = i + 1;
    }
    true
}

fn opt_text_eq(a: &Option<String>, b: &Option<String>) -> (r: bool)
    ensures
        r == same_opt_text(*a, *b),
{
    match (a, b) {
        (Some(x), Some(y)) => string_eq(x, y),
        (None, None) => true,
        _ => false,
    }
}

fn effect_eq(a: &IrEffect, b: &IrEffect) -> (r: bool)
    ensures
        r == same_effect(*a, *b),
{
    match (a, b) {
        (IrEffect::Assign { state_path: p1, expr: e1 }, IrEffect::Assign { state_path: p2, expr: e2 }) =>
            string_eq(p1, p2) && value_expr_eq(e1, e2),
        (IrEffect::CollectionAppendRecord { collection_path: c1, fields: f1, skip_if_empty_field: s1 },
            IrEffect::CollectionAppendRecord { collection_path: c2, fields: f2, skip_if_empty_field: s2 }) =>
            string_eq(c1, c2) && assignments_eq(f1, f2) && opt_text_eq(s1, s2),
        (IrEffect::CollectionUpdateAllFields { collection_path: c1, field: f1, value: v1 },
            IrEffect::CollectionUpdateAllFields { collection_path: c2, field: f2, value: v2 }) =>
            string_eq(c1, c2) && string_eq(f1, f2) && coll_value_eq(v1, v2),
        (IrEffect::CollectionUpdateOwnerField { collection_path: c1, field: f1, value: v1 },
            IrEffect::CollectionUpdateOwnerField { collection_path: c2, field: f2, value: v2 }) =>
            string_eq(c1, c2) && string_eq(f1, f2) && coll_value_eq(v1, v2),
        (IrEffect::CollectionRemoveCurrent { collection_path: c1 }, IrEffect::CollectionRemoveCurrent { collection_path: c2 }) =>
            string_eq(c1, c2),
        (IrEffect::CollectionRemoveWhere { collection_path: c1, predicate: IrCollectionPredicate::FieldBoolEquals { field: f1, value: v1 } },
            IrEffect::CollectionRemoveWhere { collection_path: c2, predicate: IrCollectionPredicate::FieldBoolEquals { field: f2, value: v2 } }) =>
            string_eq(c1, c2) && string_eq(f1, f2) && *v1 == *v2,
        (IrEffect::SetTagState { state_path: p1, value: v1 }, IrEffect::SetTagState { state_path: p2, value: v2 }) =>
            string_eq(p1, p2) && string_eq(v1, v2),
        (IrEffect::ClearText { text_state_path: p1 }, IrEffect::ClearText { text_state_path: p2 }) => string_eq(p1, p2),
        _ => false,
    }
}

/// Whether two event handlers hold the same content.
pub fn handler_eq(a: &IrEventHandler, b: &IrEventHandler) -> (r: bool)
    ensures
        r == same_handler(*a, *b),
{
    if !string_eq(&a.source_path, &b.source_path) {
        return false;
    }
    let when_same = match (&a.when, &b.when) {
        (Some(IrPredicate::SourceTagEquals { path: p1, tag: t1 }), Some(IrPredicate::SourceTagEquals { path: p2, tag: t2 })) =>
            string_eq(p1, p2) && string_eq(t1, t2),
        (None, None) => true,
        _ => false,
    };
    if !when_same || a.effects.len() != b.effects.len() {
        return false;
    }
    let mut i: usize = 0;
    while i < a.effects.len()
        invariant
            i <= a.effects@.len(),
            a.effects@.len() == b.effects@.len(),
            forall|k: int| 0 <= k < i ==> same_effect(#[trigger] a.effects@[k], b.effects@[k]),
        decreases a.effects.len() - i,
    {
        if !effect_eq(&a.effects[i], &b.effects[i]) {
            return false;
        }
        i = i + 1;
    }
    true
}

proof fn lemma_same_value_expr_refl(a: IrValueExpr)
    ensures
        same_value_expr(a, a),
    decreases a,
{
    match a {
        IrValueExpr::Add { left, right } => {
            lemma_same_value_expr_refl(*left);
            lemma_same_value_expr_refl(*right);
        },
        _ => {},
    }
}

proof fn lemma_same_value_expr_sym(a: IrValueExpr, b: IrValueExpr)
    ensures
        same_value_expr(a, b) == same_value_expr(b, a),
    decreases a,
{
    match (a, b) {
        (IrValueExpr::Add { left: l1, right: r1 }, IrValueExpr::Add { left: l2, right: r2 }) => {
            lemma_same_value_expr_sym(*l1, *l2);
            lemma_same_value_expr_sym(*r1, *r2);
        },
        _ => {},
    }
}

proof fn lemma_same_effect_refl(a: IrEffect)
    ensures
        same_effect(a, a),
{
    match a {
        IrEffect::Assign { expr, .. } => lemma_same_value_expr_refl(expr),
        _ => {},
    }
}

proof fn lemma_same_effect_sym(a: IrEffect, b: IrEffect)
    ensures
        same_effect(a, b) == same_effect(b, a),
{
    match (a, b) {
        (IrEffect::Assign { expr: e1, .. }, IrEffect::Assign { expr: e2, .. }) => lemma_same_value_expr_sym(e1, e2),
        _ => {},
    }
}

pub proof fn lemma_same_handler_refl(a: IrEventHandler)
    ensures
        same_handler(a, a),
{
    assert forall|i: int| 0 <= i < a.effects@.len() implies same_effect(#[trigger] a.effects@[i], a.effects@[i]) by {
        lemma_same_effect_refl(a.effects@[i]);
    }
}

pub proof fn lemma_same_handler_sym(a: IrEventHandler, b: IrEventHandler)
    ensures
        same_handler(a, b) == same_handler(b, a),
{
    assert forall|i: int| 0 <= i < a.effects@.len() && i < b.effects@.len() implies same_effect(#[trigger] a.effects@[i], b.effects@[i]) == same_effect(b.effects@[i], a.effects@[i]) by {
        lemma_same_effect_sym(a.effects@[i], b.effects@[i]);
    }
}

} // verus!
