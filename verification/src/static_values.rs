//! Reading the static records of a compiled app: field lookup, the record
//! filters that a view declares, and the texts that a record holds.
use vstd::prelude::*;
use crate::compiler::{AppIr, IrStaticField, IrStaticRecord, IrStaticValue};
use crate::text::str_eq;
use crate::wiring::{first_some, lemma_first_some_step, lemma_first_some_prefix, lemma_first_some_all};

verus! {

/// Picks the value of a field named `key`.
pub open spec fn key_match(key: Seq<char>) -> spec_fn(IrStaticField) -> Option<IrStaticValue> {
    |f: IrStaticField| if f.key@ == key { Some(f.value) } else { None }
}

/// The value of the first field of `fields` named `key`.
pub open spec fn field_value(fields: Seq<IrStaticField>, key: Seq<char>) -> Option<IrStaticValue> {
    first_some(fields, key_match(key))
}

/// The fields of a record value.
pub open spec fn record_fields(v: IrStaticValue) -> Option<Seq<IrStaticField>> {
    match v {
        IrStaticValue::Record { fields } => Some(fields@),
        _ => None,
    }
}

/// The value of the first field of `record` named `field`.
pub fn static_record_value_field<'a>(record: &'a [IrStaticField], field: &str) -> (r: Option<&'a IrStaticValue>)
    ensures
        match r {
            Some(v) => field_value(record@, field@) == Some(*v),
            None => field_value(record@, field@) is None,
        },
{
    let mut i: usize = 0;
    while i < record.len()
        invariant
            i <= record@.len(),
            first_some(record@.take(i as int), key_match(field@)) is None,
        decreases record.len() - i,
    {
        proof {
            lemma_first_some_step(record@, key_match(field@), i as int);
        }
        if str_eq(&record[i].key, field) {
            proof {
                lemma_first_some_prefix(record@, key_match(field@), i + 1);
            }
            return Some(&record[i].value);
        }
        i += 1;
    }
    proof {
        lemma_first_some_all(record@, key_match(field@));
    }
    None
}

/// The fields of a record value.
pub fn static_value_record(value: &IrStaticValue) -> (r: Option<&[IrStaticField]>)
    ensures
        match r {
            Some(fields) => record_fields(*value) == Some(fields@),
            None => record_fields(*value) is None,
        },
{
    match value {
        IrStaticValue::Record { fields } => Some(fields.as_slice()),
        _ => None,
    }
}

/// The value of a field of a record value.
pub fn static_value_field<'a>(value: &'a IrStaticValue, field: &str) -> (r: Option<&'a IrStaticValue>)
    ensures
        match r {
            Some(v) => record_fields(*value) matches Some(fs) && field_value(fs, field@) == Some(*v),
            None => !(record_fields(*value) matches Some(fs) && field_value(fs, field@) is Some),
        },
{
    match static_value_record(value) {
        Some(fields) => static_record_value_field(fields, field),
        None => None,
    }
}

/// The fields of the record that a field of `record` holds.
pub open spec fn record_field_fields(record: IrStaticRecord, field: Seq<char>) -> Option<Seq<IrStaticField>> {
    match field_value(record.fields@, field) {
        Some(v) => record_fields(v),
        None => None,
    }
}

/// The fields of the record that the field `field` of `record` holds.
pub fn static_record_field<'a>(record: &'a IrStaticRecord, field: &str) -> (r: Option<&'a [IrStaticField]>)
    ensures
        match r {
            Some(fields) => record_field_fields(*record, field@) == Some(fields@),
            None => record_field_fields(*record, field@) is None,
        },
{
    match static_record_value_field(record.fields.as_slice(), field) {
        Some(v) => static_value_record(v),
        None => None,
    }
}

/// The path that a value names.
pub fn static_value_path(value: &IrStaticValue) -> (r: Option<&str>)
    ensures
        match r {
            Some(p) => value matches IrStaticValue::Path { value: q } && q@ == p@,
            None => !(value is Path),
        },
{
    match value {
        IrStaticValue::Path { value } => Some(value.as_str()),
        _ => None,
    }
}

/// The boolean that a value holds.
pub fn static_value_bool(value: &IrStaticValue) -> (r: Option<bool>)
    ensures
        match r {
            Some(b) => value matches IrStaticValue::Bool { value: c } && c == b,
            None => !(value is Bool),
        },
{
    match value {
        IrStaticValue::Bool { value } => Some(*value),
        _ => None,
    }
}

/// Which records a filter lets through: all of them, or those whose
/// boolean field equals a value.
#[derive(Debug)]
pub enum RecordFilterPredicate {
    All,
    FieldBoolEquals { field: String, value: bool },
}

/// The view of a [`RecordFilterPredicate`].
pub enum FilterPredicateModel {
    All,
    FieldBoolEquals { field: Seq<char>, value: bool },
}

impl View for RecordFilterPredicate {
    type V = FilterPredicateModel;

    open spec fn view(&self) -> FilterPredicateModel {
        match self {
            RecordFilterPredicate::All => FilterPredicateModel::All,
            RecordFilterPredicate::FieldBoolEquals { field, value } => FilterPredicateModel::FieldBoolEquals {
                field: field@,
                value: *value,
            },
        }
    }
}

/// One filter that a view offers: its id and its predicate.
#[derive(Debug)]
pub struct RecordFilterSelector {
    pub id: String,
    pub predicate: RecordFilterPredicate,
}

/// The filters that a view offers.
#[derive(Debug)]
pub struct RecordFilterSet {
    pub selectors: Vec<RecordFilterSelector>,
}

impl RecordFilterSet {
    /// The ids and predicates of the filters, in order.
    pub open spec fn model(&self) -> Seq<(Seq<char>, FilterPredicateModel)> {
        self.selectors@.map_values(|s: RecordFilterSelector| (s.id@, s.predicate@))
    }
}

/// The predicate that a static value describes: a record whose `field`
/// names a path and whose `equals` holds a boolean compares that field;
/// anything else lets every record through.
pub open spec fn predicate_of(v: IrStaticValue) -> FilterPredicateModel {
    match v {
        IrStaticValue::Record { fields } => match (field_value(fields@, "field"@), field_value(fields@, "equals"@)) {
            (Some(IrStaticValue::Path { value: p }), Some(IrStaticValue::Bool { value: b })) =>
                FilterPredicateModel::FieldBoolEquals { field: p@, value: b },
            _ => FilterPredicateModel::All,
        },
        _ => FilterPredicateModel::All,
    }
}

/// The predicate that a static value describes.
pub fn record_filter_predicate_from_static_value(value: &IrStaticValue) -> (r: RecordFilterPredicate)
    ensures
        r@ == predicate_of(*value),
{
    match value {
        IrStaticValue::Record { fields } => {
            let field = match static_record_value_field(fields.as_slice(), "field") {
                Some(v) => static_value_path(v),
                None => None,
            };
            let equals = match static_record_value_field(fields.as_slice(), "equals") {
                Some(v) => static_value_bool(v),
                None => None,
            };
            match (field, equals) {
                (Some(f), Some(b)) => RecordFilterPredicate::FieldBoolEquals { field: f.to_owned(), value: b },
                _ => RecordFilterPredicate::All,
            }
        },
        _ => RecordFilterPredicate::All,
    }
}

/// The selectors of a static record, if it has a `selectors` record.
pub open spec fn selectors_of() -> spec_fn(IrStaticRecord) -> Option<Seq<IrStaticField>> {
    |r: IrStaticRecord| record_field_fields(r, "selectors"@)
}

/// A filter that a selector field declares: its key, and the predicate
/// under its `predicate` field, or all records.
pub open spec fn selector_model(f: IrStaticField) -> (Seq<char>, FilterPredicateModel) {
    (
        f.key@,
        match record_fields(f.value) {
            Some(fs) => match field_value(fs, "predicate"@) {
                Some(p) => predicate_of(p),
                None => FilterPredicateModel::All,
            },
            None => FilterPredicateModel::All,
        },
    )
}

/// The filters of the first static record that has a `selectors` record.
pub open spec fn filter_set_of(app: AppIr) -> Option<Seq<(Seq<char>, FilterPredicateModel)>> {
    match first_some(app.static_records@, selectors_of()) {
        Some(sel) => Some(sel.map_values(|f: IrStaticField| selector_model(f))),
        None => None,
    }
}

/// The filters that the first static record with a `selectors` record
/// offers.
pub fn record_filter_set_from_app_ir(app_ir: &AppIr) -> (r: Option<RecordFilterSet>)
    ensures
        match r {
            Some(set) => filter_set_of(*app_ir) == Some(set.model()),
            None => filter_set_of(*app_ir) is None,
        },
{
    let records = &app_ir.static_records;
    let mut i: usize = 0;
    while i < records.len()
        invariant
            i <= records@.len(),
            records@ == app_ir.static_records@,
            first_some(records@.take(i as int), selectors_of()) is None,
        decreases records.len() - i,
    {
        proof {
            lemma_first_some_step(records@, selectors_of(), i as int);
        }
        match static_record_field(&records[i], "selectors") {
            Some(selectors) => {
                proof {
                    lemma_first_some_prefix(records@, selectors_of(), i + 1);
                }
                let ghost sel = selectors@;
                let mut out: Vec<RecordFilterSelector> = Vec::new();
                let mut k: usize = 0;
                while k < selectors.len()
                    invariant
                        k <= sel.len(),
                        sel == selectors@,
                        out@.len() == k,
                        forall|j: int| 0 <= j < k ==> ((#[trigger] out@[j]).id@, out@[j].predicate@) == selector_model(sel[j]),
                    decreases selectors.len() - k,
                {
                    let predicate = match static_value_field(&selectors[k].value, "predicate") {
                        Some(p) => record_filter_predicate_from_static_value(p),
                        None => RecordFilterPredicate::All,
                    };
                    out.push(RecordFilterSelector { id: selectors[k].key.clone(), predicate });
                    k += 1;
                }
                let set = RecordFilterSet { selectors: out };
                assert(set.model() =~= sel.map_values(|f: IrStaticField| selector_model(f)));
                return Some(set);
            },
            None => {},
        }
        i += 1;
    }
    proof {
        lemma_first_some_all(records@, selectors_of());
    }
    None
}

/// The non-empty texts that a static value holds, in order, through its
/// records and lists.
pub open spec fn value_texts(v: IrStaticValue) -> Seq<Seq<char>>
    decreases v, 0int,
{
    match v {
        IrStaticValue::Text { value } => if value@.len() > 0 { seq![value@] } else { Seq::empty() },
        IrStaticValue::Record { fields } => fields_texts_upto(fields@, fields@.len() as int),
        IrStaticValue::List { items } => items_texts_upto(items@, items@.len() as int),
        _ => Seq::empty(),
    }
}

/// The non-empty texts that the values of the first `n` fields hold.
pub open spec fn fields_texts_upto(fields: Seq<IrStaticField>, n: int) -> Seq<Seq<char>>
    decreases fields, n,
{
    if n <= 0 || n > fields.len() {
        Seq::empty()
    } else {
        fields_texts_upto(fields, n - 1) + value_texts(fields[n - 1].value)
    }
}

/// The non-empty texts that the first `n` items hold.
pub open spec fn items_texts_upto(items: Seq<IrStaticValue>, n: int) -> Seq<Seq<char>>
    decreases items, n,
{
    if n <= 0 || n > items.len() {
        Seq::empty()
    } else {
        items_texts_upto(items, n - 1) + value_texts(items[n - 1])
    }
}

/// The non-empty texts that the values of `fields` hold, in order.
pub open spec fn fields_texts(fields: Seq<IrStaticField>) -> Seq<Seq<char>> {
    fields_texts_upto(fields, fields.len() as int)
}

/// The texts of a sequence of strings.
pub open spec fn line_texts(v: Seq<String>) -> Seq<Seq<char>> {
    v.map_values(|x: String| x@)
}

/// Appends the non-empty texts that a static value holds to `lines`.
#[verifier::loop_isolation(false)]
pub fn collect_static_value_text(value: &IrStaticValue, lines: &mut Vec<String>)
    ensures
        line_texts(final(lines)@) == line_texts(old(lines)@) + value_texts(*value),
    decreases value,
{
    match value {
        IrStaticValue::Text { value: t } => {
            if !t.as_str().is_empty() {
                lines.push(t.clone());
                assert(line_texts(lines@) =~= line_texts(old(lines)@) + seq![t@]);
            } else {
                assert(line_texts(lines@) =~= line_texts(old(lines)@));
            }
        },
        IrStaticValue::Record { fields } => {
            let mut i: usize = 0;
            assert(line_texts(lines@) =~= line_texts(old(lines)@) + fields_texts_upto(fields@, 0));
            while i < fields.len()
                invariant
                    i <= fields@.len(),
                    line_texts(lines@) == line_texts(old(lines)@) + fields_texts_upto(fields@, i as int),
                decreases fields.len() - i,
            {
                proof {
                    assert(decreases_to!(*value => (*value)->Record_fields));
                    assert(decreases_to!(fields => fields@));
                    assert(decreases_to!(fields@ => fields@[i as int]));
                    assert(decreases_to!(fields@[i as int] => fields@[i as int].value));
                }
                collect_static_value_text(&fields[i].value, lines);
                assert(line_texts(lines@) =~= line_texts(old(lines)@) + fields_texts_upto(fields@, i + 1));
                i += 1;
            }
        },
        IrStaticValue::List { items } => {
            let mut i: usize = 0;
            assert(line_texts(lines@) =~= line_texts(old(lines)@) + items_texts_upto(items@, 0));
            while i < items.len()
                invariant
                    i <= items@.len(),
                    line_texts(lines@) == line_texts(old(lines)@) + items_texts_upto(items@, i as int),
                decreases items.len() - i,
            {
                proof {
                    assert(decreases_to!(*value => (*value)->List_items));
                    assert(decreases_to!(items => items@));
                    assert(decreases_to!(items@ => items@[i as int]));
                }
                collect_static_value_text(&items[i], lines);
                assert(line_texts(lines@) =~= line_texts(old(lines)@) + items_texts_upto(items@, i + 1));
                i += 1;
            }
        },
        _ => {
            assert(line_texts(lines@) =~= line_texts(old(lines)@));
        },
    }
}

/// Appends the non-empty texts that the values of `fields` hold to `lines`.
pub fn collect_static_text_values(fields: &[IrStaticField], lines: &mut Vec<String>)
    ensures
        line_texts(final(lines)@) == line_texts(old(lines)@) + fields_texts(fields@),
{
    let mut i: usize = 0;
    assert(line_texts(lines@) =~= line_texts(old(lines)@) + fields_texts_upto(fields@, 0));
    while i < fields.len()
        invariant
            i <= fields@.len(),
            line_texts(lines@) == line_texts(old(lines)@) + fields_texts_upto(fields@, i as int),
        decreases fields.len() - i,
    {
        collect_static_value_text(&fields[i].value, lines);
        assert(line_texts(lines@) =~= line_texts(old(lines)@) + fields_texts_upto(fields@, i + 1));
        i += 1;
    }
}

} // verus!
