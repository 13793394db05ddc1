//! The static values a module writes down: literals, paths, tags, ranges,
//! and lists and records of them, as the app IR carries them.
use vstd::prelude::*;
use crate::hir::{HirExpr, HirExprKind, HirListOp, HirLiteral, HirRecord};
use crate::text::{chars_of_string, str_eq, string_of};
use super::{IrStaticField, IrStaticValue};
use super::hirq::{arg_index, named_arg, number_literal, number_of};

verus! {

/// The mathematical value of an [`IrStaticValue`].
pub enum StaticModel {
    Text(Seq<char>),
    Number(i64),
    Bool(bool),
    Tag(Seq<char>),
    Path(Seq<char>),
    Range(i64, i64),
    Record(Seq<(Seq<char>, StaticModel)>),
    List(Seq<StaticModel>),
}

pub open spec fn static_model(v: IrStaticValue) -> StaticModel
    decreases v,
{
    match v {
        IrStaticValue::Text { value } => StaticModel::Text(value@),
        IrStaticValue::Number { value } => StaticModel::Number(value),
        IrStaticValue::Bool { value } => StaticModel::Bool(value),
        IrStaticValue::Tag { value } => StaticModel::Tag(value@),
        IrStaticValue::Path { value } => StaticModel::Path(value@),
        IrStaticValue::Range { from, to } => StaticModel::Range(from, to),
        IrStaticValue::Record { fields } => StaticModel::Record(
            Seq::new(
                fields@.len(),
                |i: int|
                    if 0 <= i < fields@.len() {
                        (fields@[i].key@, static_model(fields@[i].value))
                    } else {
                        (Seq::empty(), StaticModel::Bool(false))
                    },
            ),
        ),
        IrStaticValue::List { items } => StaticModel::List(
            Seq::new(
                items@.len(),
                |i: int|
                    if 0 <= i < items@.len() {
                        static_model(items@[i])
                    } else {
                        StaticModel::Bool(false)
                    },
            ),
        ),
    }
}

/// The fields of a static record as (key, value) pairs.
pub open spec fn fields_model(f: Seq<IrStaticField>) -> Seq<(Seq<char>, StaticModel)> {
    Seq::new(f.len(), |i: int| (f[i].key@, static_model(f[i].value)))
}

impl IrStaticValue {
    /// A copy of the value.
    #[verifier::loop_isolation(false)]
    pub fn duplicate(&self) -> (r: IrStaticValue)
        ensures
            static_model(r) == static_model(*self),
        decreases self,
    {
        match self {
            IrStaticValue::Text { value } => IrStaticValue::Text { value: value.clone() },
            IrStaticValue::Number { value } => IrStaticValue::Number { value: *value },
            IrStaticValue::Bool { value } => IrStaticValue::Bool { value: *value },
            IrStaticValue::Tag { value } => IrStaticValue::Tag { value: value.clone() },
            IrStaticValue::Path { value } => IrStaticValue::Path { value: value.clone() },
            IrStaticValue::Range { from, to } => IrStaticValue::Range { from: *from, to: *to },
            IrStaticValue::Record { fields } => {
                let mut out: Vec<IrStaticField> = Vec::new();
                let mut i: usize = 0;
                while i < fields.len()
                    invariant
                        i <= fields@.len(),
                        out@.len() == i,
                        forall|k: int|
                            0 <= k < i ==> (#[trigger] out@[k]).key@ == fields@[k].key@
                                && static_model(out@[k].value) == static_model(fields@[k].value),
                    decreases fields.len() - i,
                {
                    proof {
                        assert(decreases_to!(fields@ => fields@[i as int]));
                        assert(decreases_to!(fields@[i as int] => fields@[i as int].value));
                    }
                    let v = fields[i].value.duplicate();
                    out.push(IrStaticField { key: fields[i].key.clone(), value: v });
                    i += 1;
                }
                let r = IrStaticValue::Record { fields: out };
                assert(static_model(r)->Record_0 =~= static_model(*self)->Record_0);
                r
            },
            IrStaticValue::List { items } => {
                let mut out: Vec<IrStaticValue> = Vec::new();
                let mut i: usize = 0;
                while i < items.len()
                    invariant
                        i <= items@.len(),
                        out@.len() == i,
                        forall|k: int| 0 <= k < i ==> static_model(#[trigger] out@[k]) == static_model(items@[k]),
                    decreases items.len() - i,
                {
                    proof {
                        assert(decreases_to!(items@ => items@[i as int]));
                    }
                    let v = items[i].duplicate();
                    out.push(v);
                    i += 1;
                }
                let r = IrStaticValue::List { items: out };
                assert(static_model(r)->List_0 =~= static_model(*self)->List_0);
                r
            },
        }
    }
}

// ---------------------------------------------------------------------------
// The static value of an expression
// ---------------------------------------------------------------------------

/// The static value an expression writes down: a text, path, number, bool
/// or tag as itself; a list of the items that have one; a record of the
/// entries that have one; a `List/range` as its bounds (from 1 and to 0
/// where they are not number literals).
pub open spec fn static_of(e: HirExpr) -> Option<StaticModel>
    decreases e, 2int,
{
    match e.kind {
        HirExprKind::Literal { literal: HirLiteral::Text { value } } => Some(StaticModel::Text(value@)),
        HirExprKind::Path { value } => Some(StaticModel::Path(value@)),
        HirExprKind::Literal { literal: HirLiteral::Number { value } } => Some(StaticModel::Number(value)),
        HirExprKind::Literal { literal: HirLiteral::Bool { value } } => Some(StaticModel::Bool(value)),
        HirExprKind::Tag { value } => Some(StaticModel::Tag(value@)),
        HirExprKind::List { items } => Some(StaticModel::List(statics_of(items@))),
        HirExprKind::Record { entries } => Some(StaticModel::Record(static_fields_of(entries@))),
        HirExprKind::ListCall { op: HirListOp::Range, args } => Some(
            StaticModel::Range(range_bound(args@, "from"@, 1), range_bound(args@, "to"@, 0)),
        ),
        _ => None,
    }
}

/// The number literal passed as argument `name`, else `default`.
pub open spec fn range_bound(args: Seq<crate::hir::HirCallArg>, name: Seq<char>, default: i64) -> i64 {
    match arg_index(args, name) {
        Some(i) => match number_of(args[i].value) {
            Some(n) => n,
            None => default,
        },
        None => default,
    }
}

/// The static values of the expressions that have one, in order.
pub open spec fn statics_of(s: Seq<HirExpr>) -> Seq<StaticModel>
    decreases s, 1int,
{
    if s.len() == 0 {
        Seq::empty()
    } else {
        proof {
            assert(decreases_to!(s => s[s.len() - 1]));
        }
        statics_of(s.drop_last()) + match static_of(s[s.len() - 1]) {
            Some(v) => seq![v],
            None => Seq::empty(),
        }
    }
}

/// The static value of a record: its children as a record where it has
/// any, else the static value of its value.
pub open spec fn static_of_record(r: HirRecord) -> Option<StaticModel>
    decreases r, 2int,
{
    if r.children@.len() > 0 {
        Some(StaticModel::Record(static_fields_of(r.children@)))
    } else {
        match r.value {
            Some(v) => static_of(v),
            None => None,
        }
    }
}

/// The fields of the records that have a static value, in order.
pub open spec fn static_fields_of(s: Seq<HirRecord>) -> Seq<(Seq<char>, StaticModel)>
    decreases s, 1int,
{
    if s.len() == 0 {
        Seq::empty()
    } else {
        proof {
            assert(decreases_to!(s => s[s.len() - 1]));
        }
        static_fields_of(s.drop_last()) + match static_of_record(s[s.len() - 1]) {
            Some(v) => seq![(s[s.len() - 1].key@, v)],
            None => Seq::empty(),
        }
    }
}

/// The static value of an expression.
pub fn static_value_from_expr(e: &HirExpr) -> (r: Option<IrStaticValue>)
    ensures
        match r {
            Some(v) => static_of(*e) == Some(static_model(v)),
            None => static_of(*e) is None,
        },
    decreases e, 3int,
{
    match &e.kind {
        HirExprKind::Literal { literal: HirLiteral::Text { value } } => Some(IrStaticValue::Text { value: value.clone() }),
        HirExprKind::Path { value } => Some(IrStaticValue::Path { value: value.clone() }),
        HirExprKind::Literal { literal: HirLiteral::Number { value } } => Some(IrStaticValue::Number { value: *value }),
        HirExprKind::Literal { literal: HirLiteral::Bool { value } } => Some(IrStaticValue::Bool { value: *value }),
        HirExprKind::Tag { value } => Some(IrStaticValue::Tag { value: value.clone() }),
        HirExprKind::List { items } => {
            let out = statics_from_exprs(items);
            let r = IrStaticValue::List { items: out };
            assert(static_model(r)->List_0 =~= statics_of(items@));
            Some(r)
        },
        HirExprKind::Record { entries } => {
            let fields = literal_record_fields(entries);
            let r = IrStaticValue::Record { fields };
            assert(static_model(r)->Record_0 =~= static_fields_of(entries@));
            Some(r)
        },
        HirExprKind::ListCall { op: HirListOp::Range, args } => Some(range_value(args)),
        _ => None,
    }
}

/// A range with the bounds passed as `from` and `to`.
fn range_value(args: &Vec<crate::hir::HirCallArg>) -> (r: IrStaticValue)
    ensures
        static_model(r) == StaticModel::Range(range_bound(args@, "from"@, 1), range_bound(args@, "to"@, 0)),
{
    let from = match named_arg(args, "from") {
        Some(a) => match number_literal(a) {
            Some(n) => n,
            None => 1,
        },
        None => 1,
    };
    let to = match named_arg(args, "to") {
        Some(a) => match number_literal(a) {
            Some(n) => n,
            None => 0,
        },
        None => 0,
    };
    IrStaticValue::Range { from, to }
}

/// The static values of the expressions that have one.
fn statics_from_exprs(items: &Vec<HirExpr>) -> (r: Vec<IrStaticValue>)
    ensures
        Seq::new(r@.len(), |i: int| static_model(r@[i])) == statics_of(items@),
    decreases items@, 2int,
{
    let mut out: Vec<IrStaticValue> = Vec::new();
    let mut i: usize = 0;
    assert(items@.take(0) =~= Seq::<HirExpr>::empty());
    while i < items.len()
        invariant
            i <= items@.len(),
            Seq::new(out@.len(), |k: int| static_model(out@[k])) == statics_of(items@.take(i as int)),
        decreases items.len() - i,
    {
        proof {
            assert(decreases_to!(items@ => items@[i as int]));
        }
        let ghost before = out@;
        match static_value_from_expr(&items[i]) {
            Some(v) => {
                out.push(v);
            },
            None => {},
        }
        proof {
            let t = items@.take(i + 1);
            assert(t.drop_last() =~= items@.take(i as int));
            assert(Seq::new(out@.len(), |k: int| static_model(out@[k])) =~= statics_of(t));
        }
        i = i + 1;
    }
    assert(items@.take(items@.len() as int) =~= items@);
    out
}

/// The static value of a record.
pub fn static_value_from_record(r: &HirRecord) -> (out: Option<IrStaticValue>)
    ensures
        match out {
            Some(v) => static_of_record(*r) == Some(static_model(v)),
            None => static_of_record(*r) is None,
        },
    decreases r, 3int,
{
    if r.children.len() > 0 {
        let fields = literal_record_fields(&r.children);
        let v = IrStaticValue::Record { fields };
        assert(static_model(v)->Record_0 =~= static_fields_of(r.children@));
        Some(v)
    } else {
        match &r.value {
            Some(v) => static_value_from_expr(v),
            None => None,
        }
    }
}

/// The fields of the records that have a static value.
pub fn literal_record_fields(records: &Vec<HirRecord>) -> (r: Vec<IrStaticField>)
    ensures
        fields_model(r@) == static_fields_of(records@),
    decreases records@, 2int,
{
    let mut out: Vec<IrStaticField> = Vec::new();
    let mut i: usize = 0;
    assert(records@.take(0) =~= Seq::<HirRecord>::empty());
    assert(fields_model(out@) =~= Seq::<(Seq<char>, StaticModel)>::empty());
    while i < records.len()
        invariant
            i <= records@.len(),
            fields_model(out@) == static_fields_of(records@.take(i as int)),
        decreases records.len() - i,
    {
        proof {
            assert(decreases_to!(records@ => records@[i as int]));
        }
        match static_value_from_record(&records[i]) {
            Some(v) => {
                out.push(IrStaticField { key: string_of(&chars_of_string(&records[i].key)), value: v });
            },
            None => {},
        }
        proof {
            let t = records@.take(i + 1);
            assert(t.drop_last() =~= records@.take(i as int));
            assert(fields_model(out@) =~= static_fields_of(t));
        }
        i = i + 1;
    }
    assert(records@.take(records@.len() as int) =~= records@);
    out
}

// ---------------------------------------------------------------------------
// Static values under an environment of argument values
// ---------------------------------------------------------------------------

/// The environment as a map from name to value; later entries replace
/// earlier ones.
pub open spec fn env_map(env: Seq<(String, IrStaticValue)>) -> Map<Seq<char>, StaticModel>
    decreases env.len(),
{
    if env.len() == 0 {
        Map::empty()
    } else {
        env_map(env.drop_last()).insert(env.last().0@, static_model(env.last().1))
    }
}

/// A pipeline with a `HOLD` stage: its value is its initial input.
pub open spec fn holds(stages: Seq<HirExpr>) -> bool {
    exists|i: int| 0 <= i < stages.len() && (#[trigger] stages[i]).kind is Hold
}

/// The static value of an expression where paths name arguments: a path
/// is the argument's value (none for an unknown name), a held pipeline is
/// its input, anything else its plain static value.
pub open spec fn static_of_env(e: HirExpr, env: Map<Seq<char>, StaticModel>) -> Option<StaticModel>
    decreases e,
{
    match e.kind {
        HirExprKind::Path { value } => if env.contains_key(value@) {
            Some(env[value@])
        } else {
            None
        },
        HirExprKind::Pipeline { input, stages } => if holds(stages@) {
            static_of_env(*input, env)
        } else {
            static_of(e)
        },
        _ => static_of(e),
    }
}

/// The static value of a record where paths name arguments.
pub open spec fn static_of_record_env(r: HirRecord, env: Map<Seq<char>, StaticModel>) -> Option<StaticModel>
    decreases r, 1int,
{
    if r.children@.len() > 0 {
        Some(StaticModel::Record(fields_env(r.children@, env)))
    } else {
        match r.value {
            Some(v) => static_of_env(v, env),
            None => None,
        }
    }
}

/// The fields of the records other than `sources` that have a static value
/// where paths name arguments.
pub open spec fn fields_env(s: Seq<HirRecord>, env: Map<Seq<char>, StaticModel>) -> Seq<(Seq<char>, StaticModel)>
    decreases s, 0int,
{
    if s.len() == 0 {
        Seq::empty()
    } else {
        proof {
            assert(decreases_to!(s => s[s.len() - 1]));
        }
        let r = s[s.len() - 1];
        fields_env(s.drop_last(), env) + if r.key@ == "sources"@ {
            Seq::empty()
        } else {
            match static_of_record_env(r, env) {
                Some(v) => seq![(r.key@, v)],
                None => Seq::empty(),
            }
        }
    }
}

/// The value of `name` in the environment.
pub fn env_get(env: &Vec<(String, IrStaticValue)>, name: &String) -> (r: Option<IrStaticValue>)
    ensures
        env_map(env@).contains_key(name@) ==> (r matches Some(v) && static_model(v) == env_map(env@)[name@]),
        !env_map(env@).contains_key(name@) ==> r is None,
{
    let mut i: usize = env.len();
    assert(env@.subrange(0, env@.len() as int) =~= env@);
    while i > 0
        invariant
            i <= env@.len(),
            forall|k: int| i <= k < env@.len() ==> (#[trigger] env@[k]).0@ != name@,
            env_map(env@).contains_key(name@) == env_map(env@.subrange(0, i as int)).contains_key(name@),
            env_map(env@).contains_key(name@) ==> env_map(env@)[name@] == env_map(env@.subrange(0, i as int))[name@],
        decreases i,
    {
        let ghost pre = env@.subrange(0, i as int);
        assert(pre.drop_last() =~= env@.subrange(0, i - 1));
        if crate::text::string_eq(&env[i - 1].0, name) {
            return Some(env[i - 1].1.duplicate());
        }
        i = i - 1;
    }
    None
}

/// Whether some stage is a `HOLD`.
fn has_hold(stages: &Vec<HirExpr>) -> (r: bool)
    ensures
        r == holds(stages@),
{
    let mut i: usize = 0;
    while i < stages.len()
        invariant
            i <= stages@.len(),
            forall|j: int| 0 <= j < i ==> !((#[trigger] stages@[j]).kind is Hold),
        decreases stages.len() - i,
    {
        match &stages[i].kind {
            HirExprKind::Hold { .. } => {
                return true;
            },
            _ => {},
        }
        i = i + 1;
    }
    false
}

/// The static value of an expression where paths name arguments.
pub fn static_value_from_expr_with_env(e: &HirExpr, env: &Vec<(String, IrStaticValue)>) -> (r: Option<IrStaticValue>)
    ensures
        match r {
            Some(v) => static_of_env(*e, env_map(env@)) == Some(static_model(v)),
            None => static_of_env(*e, env_map(env@)) is None,
        },
    decreases e,
{
    match &e.kind {
        HirExprKind::Path { value } => env_get(env, value),
        HirExprKind::Pipeline { input, stages } => {
            if has_hold(stages) {
                static_value_from_expr_with_env(input, env)
            } else {
                static_value_from_expr(e)
            }
        },
        _ => static_value_from_expr(e),
    }
}

/// The static value of a record where paths name arguments.
pub fn static_value_from_record_with_env(r: &HirRecord, env: &Vec<(String, IrStaticValue)>) -> (out: Option<IrStaticValue>)
    ensures
        match out {
            Some(v) => static_of_record_env(*r, env_map(env@)) == Some(static_model(v)),
            None => static_of_record_env(*r, env_map(env@)) is None,
        },
    decreases r, 2int,
{
    if r.children.len() > 0 {
        let fields = literal_record_fields_with_env(&r.children, env);
        let v = IrStaticValue::Record { fields };
        assert(static_model(v)->Record_0 =~= fields_env(r.children@, env_map(env@)));
        Some(v)
    } else {
        match &r.value {
            Some(v) => static_value_from_expr_with_env(v, env),
            None => None,
        }
    }
}

/// The fields of the records other than `sources` that have a static value
/// where paths name arguments.
pub fn literal_record_fields_with_env(records: &Vec<HirRecord>, env: &Vec<(String, IrStaticValue)>) -> (r: Vec<IrStaticField>)
    ensures
        fields_model(r@) == fields_env(records@, env_map(env@)),
    decreases records@, 1int,
{
    let mut out: Vec<IrStaticField> = Vec::new();
    let mut i: usize = 0;
    assert(records@.take(0) =~= Seq::<HirRecord>::empty());
    assert(fields_model(out@) =~= Seq::<(Seq<char>, StaticModel)>::empty());
    while i < records.len()
        invariant
            i <= records@.len(),
            fields_model(out@) == fields_env(records@.take(i as int), env_map(env@)),
        decreases records.len() - i,
    {
        proof {
            assert(decreases_to!(records@ => records@[i as int]));
        }
        if !str_eq(&records[i].key, "sources") {
            match static_value_from_record_with_env(&records[i], env) {
                Some(v) => {
                    out.push(IrStaticField { key: string_of(&chars_of_string(&records[i].key)), value: v });
                },
                None => {},
            }
        }
        proof {
            let t = records@.take(i + 1);
            assert(t.drop_last() =~= records@.take(i as int));
            assert(fields_model(out@) =~= fields_env(t, env_map(env@)));
        }
        i = i + 1;
    }
    assert(records@.take(records@.len() as int) =~= records@);
    out
}

} // verus!
