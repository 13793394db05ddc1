//! Rust source text for the values of a compiled module, so that a
//! generated crate can rebuild them without compiling Boon again.
use vstd::prelude::*;
use crate::compiler::{
    AppIr, ExecCallArg, ExecEffect, ExecExpr, ExecSourceHandler, ExecStateSlot, ExecWhenArm, ExecutableIr,
    IrAppMetadata, IrCollectionFieldAssignment, IrCollectionPredicate, IrCollectionSeed, IrCollectionState,
    IrCollectionValueExpr, IrEffect, IrEventHandler, IrPredicate, IrRenderKind, IrRenderNode, IrRenderText,
    IrStateCell, IrStaticField, IrStaticRecord, IrStaticValue, IrValueExpr,
};
use crate::emissions::{debug_quoted, str_debug_text};
use crate::shape::Shape;
use crate::source::{SourceEntry, SourceInventory, SourceOwner};
use crate::text::{dec_chars, int_chars, push_decimal, push_i64, push_str, string_of};

verus! {

/// A Rust string literal for `s`: its debugging text.
pub open spec fn literal_code(s: Seq<char>) -> Seq<char> {
    str_debug_text(s)
}

/// A Rust string literal for `value`.
pub fn rust_string_literal(value: &str) -> (r: String)
    ensures
        r@ == literal_code(value@),
{
    debug_quoted(value)
}

/// A Rust expression for an owned copy of the string `s`.
pub open spec fn owned_code(s: Seq<char>) -> Seq<char> {
    literal_code(s) + ".to_string()"@
}

/// A Rust expression for an owned copy of `value`.
pub fn owned_string_expr(value: &str) -> (r: String)
    ensures
        r@ == owned_code(value@),
{
    let lit = rust_string_literal(value);
    let mut out: Vec<char> = Vec::new();
    push_str(&mut out, lit.as_str());
    push_str(&mut out, ".to_string()");
    string_of(&out)
}

/// The texts joined by `, `.
pub open spec fn joined(parts: Seq<Seq<char>>) -> Seq<char>
    decreases parts.len(),
{
    if parts.len() == 0 {
        Seq::empty()
    } else if parts.len() == 1 {
        parts[0]
    } else {
        joined(parts.drop_last()) + ", "@ + parts.last()
    }
}

/// A Rust expression for a vector whose items have the codes `parts`:
/// `Vec::new()` when there are none.
pub open spec fn vec_code(parts: Seq<Seq<char>>) -> Seq<char> {
    if parts.len() == 0 {
        "Vec::new()"@
    } else {
        "vec!["@ + joined(parts) + "]"@
    }
}

/// The texts of a sequence of strings.
pub open spec fn codes_of(v: Seq<String>) -> Seq<Seq<char>> {
    v.map_values(|s: String| s@)
}

/// A Rust expression for a vector whose items have the codes `parts`.
pub fn vec_expr(parts: &[String]) -> (r: String)
    ensures
        r@ == vec_code(codes_of(parts@)),
{
    if parts.len() == 0 {
        return "Vec::new()".to_owned();
    }
    let mut out: Vec<char> = Vec::new();
    push_str(&mut out, "vec![");
    let mut i: usize = 0;
    while i < parts.len()
        invariant
            1 <= parts@.len(),
            i <= parts@.len(),
            out@ == "vec!["@ + joined(codes_of(parts@).take(i as int)),
        decreases parts.len() - i,
    {
        let ghost before = joined(codes_of(parts@).take(i as int));
        assert(codes_of(parts@).take(i + 1).drop_last() =~= codes_of(parts@).take(i as int));
        if i > 0 {
            push_str(&mut out, ", ");
        }
        push_str(&mut out, parts[i].as_str());
        assert(out@ =~= "vec!["@ + joined(codes_of(parts@).take(i + 1)));
        i += 1;
    }
    assert(codes_of(parts@).take(parts@.len() as int) =~= codes_of(parts@));
    push_str(&mut out, "]");
    string_of(&out)
}

/// A Rust expression for an option whose value, if any, has the code in
/// `o`.
pub open spec fn option_code(o: Option<Seq<char>>) -> Seq<char> {
    match o {
        Some(x) => "Some("@ + x + ")"@,
        None => "None"@,
    }
}

/// A Rust expression for an option whose value, if any, has the code
/// `value`.
pub fn option_expr(value: Option<String>) -> (r: String)
    ensures
        r@ == option_code(match value { Some(x) => Some(x@), None => None }),
{
    match value {
        Some(x) => {
            let mut out: Vec<char> = Vec::new();
            push_str(&mut out, "Some(");
            push_str(&mut out, x.as_str());
            push_str(&mut out, ")");
            string_of(&out)
        },
        None => "None".to_owned(),
    }
}

/// A Rust expression for an optional owned string.
pub open spec fn option_string_code(o: Option<Seq<char>>) -> Seq<char> {
    match o {
        Some(s) => option_code(Some(owned_code(s))),
        None => option_code(None),
    }
}

/// The view of an optional string.
pub open spec fn opt_text(o: Option<String>) -> Option<Seq<char>> {
    match o {
        Some(s) => Some(s@),
        None => None,
    }
}

/// A Rust expression for an optional owned string.
pub fn option_string_expr(value: Option<&str>) -> (r: String)
    ensures
        r@ == option_string_code(match value { Some(s) => Some(s@), None => None }),
{
    match value {
        Some(s) => option_expr(Some(owned_string_expr(s))),
        None => option_expr(None),
    }
}

fn option_string_of(value: &Option<String>) -> (r: String)
    ensures
        r@ == option_string_code(opt_text(*value)),
{
    match value {
        Some(s) => option_string_expr(Some(s.as_str())),
        None => option_string_expr(None),
    }
}

proof fn lemma_codes_push(prev: Seq<String>, s: String)
    ensures
        codes_of(prev.push(s)) == codes_of(prev).push(s@),
{
    assert(codes_of(prev.push(s)) =~= codes_of(prev).push(s@));
}

/// How a boolean is written in Rust.
pub open spec fn bool_code(b: bool) -> Seq<char> {
    if b { "true"@ } else { "false"@ }
}

fn bool_word(b: bool) -> (r: &'static str)
    ensures
        r@ == bool_code(b),
{
    if b { "true" } else { "false" }
}

/// The owned-string codes of a sequence of strings.
pub open spec fn owned_codes(v: Seq<String>) -> Seq<Seq<char>> {
    v.map_values(|s: String| owned_code(s@))
}

fn owned_strings_expr(v: &Vec<String>) -> (r: String)
    ensures
        r@ == vec_code(owned_codes(v@)),
{
    let mut parts: Vec<String> = Vec::new();
    let mut i: usize = 0;
    while i < v.len()
        invariant
            i <= v@.len(),
            codes_of(parts@) == owned_codes(v@).take(i as int),
        decreases v.len() - i,
    {
        let item = owned_string_expr(v[i].as_str());
        proof {
            lemma_codes_push(parts@, item);
            assert(owned_codes(v@).take(i + 1) =~= owned_codes(v@).take(i as int).push(item@));
        }
        parts.push(item);
        i += 1;
    }
    assert(owned_codes(v@).take(v@.len() as int) =~= owned_codes(v@));
    vec_expr(parts.as_slice())
}

/// A Rust expression for a source owner.
pub open spec fn owner_code(owner: SourceOwner) -> Seq<char> {
    match owner {
        SourceOwner::Static => "SourceOwner::Static"@,
        SourceOwner::DynamicFamily { owner_path } =>
            "SourceOwner::DynamicFamily { owner_path: "@ + owned_code(owner_path@) + " }"@,
    }
}

/// A Rust expression for a source owner.
pub fn source_owner_expr(owner: &SourceOwner) -> (r: String)
    ensures
        r@ == owner_code(*owner),
{
    match owner {
        SourceOwner::Static => "SourceOwner::Static".to_owned(),
        SourceOwner::DynamicFamily { owner_path } => {
            let p = owned_string_expr(owner_path.as_str());
            let mut out: Vec<char> = Vec::new();
            push_str(&mut out, "SourceOwner::DynamicFamily { owner_path: ");
            push_str(&mut out, p.as_str());
            push_str(&mut out, " }");
            string_of(&out)
        },
    }
}

/// The code of a field of a record shape.
pub open spec fn shape_field_code(key: Seq<char>, shape_code_text: Seq<char>) -> Seq<char> {
    "("@ + owned_code(key) + ", "@ + shape_code_text + ")"@
}

/// A Rust expression for a shape.
pub open spec fn shape_code(s: Shape) -> Seq<char>
    decreases s, 0int,
{
    match s {
        Shape::Unknown => "Shape::Unknown"@,
        Shape::EmptyRecord => "Shape::EmptyRecord"@,
        Shape::Record(fields) => "Shape::Record("@ + vec_code(shape_field_codes(fields@, fields@.len() as int)) + ")"@,
        Shape::List(item) => "Shape::List(Box::new("@ + shape_code(*item) + "))"@,
        Shape::Text => "Shape::Text"@,
        Shape::Number => "Shape::Number"@,
        Shape::TagSet(tags) => "Shape::TagSet("@ + vec_code(owned_codes(tags@)) + ")"@,
        Shape::Function => "Shape::Function"@,
        Shape::SourceMarker => "Shape::SourceMarker"@,
        Shape::Skip => "Shape::Skip"@,
        Shape::Union(shapes) => "Shape::Union("@ + vec_code(shape_codes(shapes@, shapes@.len() as int)) + ")"@,
    }
}

/// The codes of the first `n` fields of a record shape.
pub open spec fn shape_field_codes(fields: Seq<(String, Shape)>, n: int) -> Seq<Seq<char>>
    decreases fields, n,
{
    if n <= 0 || n > fields.len() {
        Seq::empty()
    } else {
        shape_field_codes(fields, n - 1).push(shape_field_code(fields[n - 1].0@, shape_code(fields[n - 1].1)))
    }
}

/// The codes of the first `n` shapes.
pub open spec fn shape_codes(shapes: Seq<Shape>, n: int) -> Seq<Seq<char>>
    decreases shapes, n,
{
    if n <= 0 || n > shapes.len() {
        Seq::empty()
    } else {
        shape_codes(shapes, n - 1).push(shape_code(shapes[n - 1]))
    }
}

fn wrap(head: &str, body: &str, tail: &str) -> (r: String)
    ensures
        r@ == head@ + body@ + tail@,
{
    let mut out: Vec<char> = Vec::new();
    push_str(&mut out, head);
    push_str(&mut out, body);
    push_str(&mut out, tail);
    string_of(&out)
}

/// A Rust expression for a shape.
#[verifier::loop_isolation(false)]
pub fn shape_expr(shape: &Shape) -> (r: String)
    ensures
        r@ == shape_code(*shape),
    decreases shape,
{
    match shape {
        Shape::Unknown => "Shape::Unknown".to_owned(),
        Shape::EmptyRecord => "Shape::EmptyRecord".to_owned(),
        Shape::Record(fields) => {
            let mut parts: Vec<String> = Vec::new();
            let mut i: usize = 0;
            while i < fields.len()
                invariant
                    i <= fields@.len(),
                    codes_of(parts@) == shape_field_codes(fields@, i as int),
                decreases fields.len() - i,
            {
                proof {
                    assert(decreases_to!(*shape => (*shape)->Record_0));
                    assert(decreases_to!(fields => fields@));
                    assert(decreases_to!(fields@ => fields@[i as int]));
                    assert(decreases_to!(fields@[i as int] => fields@[i as int].1));
                }
                let inner = shape_expr(&fields[i].1);
                let key = owned_string_expr(fields[i].0.as_str());
                let mut out: Vec<char> = Vec::new();
                push_str(&mut out, "(");
                push_str(&mut out, key.as_str());
                push_str(&mut out, ", ");
                push_str(&mut out, inner.as_str());
                push_str(&mut out, ")");
                let item = string_of(&out);
                assert(item@ == shape_field_code(fields@[i as int].0@, shape_code(fields@[i as int].1)));
                parts.push(item);
                assert(codes_of(parts@) =~= shape_field_codes(fields@, i + 1));
                i += 1;
            }
            let v = vec_expr(parts.as_slice());
            wrap("Shape::Record(", v.as_str(), ")")
        },
        Shape::List(item) => {
            let inner = shape_expr(&**item);
            wrap("Shape::List(Box::new(", inner.as_str(), "))")
        },
        Shape::Text => "Shape::Text".to_owned(),
        Shape::Number => "Shape::Number".to_owned(),
        Shape::TagSet(tags) => {
            let v = owned_strings_expr(tags);
            wrap("Shape::TagSet(", v.as_str(), ")")
        },
        Shape::Function => "Shape::Function".to_owned(),
        Shape::SourceMarker => "Shape::SourceMarker".to_owned(),
        Shape::Skip => "Shape::Skip".to_owned(),
        Shape::Union(shapes) => {
            let mut parts: Vec<String> = Vec::new();
            let mut i: usize = 0;
            while i < shapes.len()
                invariant
                    i <= shapes@.len(),
                    codes_of(parts@) == shape_codes(shapes@, i as int),
                decreases shapes.len() - i,
            {
                proof {
                    assert(decreases_to!(*shape => (*shape)->Union_0));
                    assert(decreases_to!(shapes => shapes@));
                    assert(decreases_to!(shapes@ => shapes@[i as int]));
                }
                let item = shape_expr(&shapes[i]);
                parts.push(item);
                assert(codes_of(parts@) =~= shape_codes(shapes@, i + 1));
                i += 1;
            }
            let v = vec_expr(parts.as_slice());
            wrap("Shape::Union(", v.as_str(), ")")
        },
    }
}

/// A Rust expression for a source entry.
pub open spec fn entry_code(e: SourceEntry) -> Seq<char> {
    "SourceEntry { id: "@ + dec_chars(e.id as nat) + ", path: "@ + owned_code(e.path@) + ", shape: "@
        + shape_code(e.shape) + ", producer: "@ + owned_code(e.producer@) + ", readers: "@
        + vec_code(owned_codes(e.readers@)) + ", owner: "@ + owner_code(e.owner) + " }"@
}

/// A Rust expression for a source entry.
pub fn source_entry_expr(entry: &SourceEntry) -> (r: String)
    ensures
        r@ == entry_code(*entry),
{
    let path = owned_string_expr(entry.path.as_str());
    let shape = shape_expr(&entry.shape);
    let producer = owned_string_expr(entry.producer.as_str());
    let readers = owned_strings_expr(&entry.readers);
    let owner = source_owner_expr(&entry.owner);
    let mut out: Vec<char> = Vec::new();
    push_str(&mut out, "SourceEntry { id: ");
    push_decimal(&mut out, entry.id as u64);
    push_str(&mut out, ", path: ");
    push_str(&mut out, path.as_str());
    push_str(&mut out, ", shape: ");
    push_str(&mut out, shape.as_str());
    push_str(&mut out, ", producer: ");
    push_str(&mut out, producer.as_str());
    push_str(&mut out, ", readers: ");
    push_str(&mut out, readers.as_str());
    push_str(&mut out, ", owner: ");
    push_str(&mut out, owner.as_str());
    push_str(&mut out, " }");
    string_of(&out)
}

/// A Rust expression for a source inventory.
pub open spec fn inventory_code(inv: SourceInventory) -> Seq<char> {
    "SourceInventory { entries: "@ + vec_code(inv.entries@.map_values(|e: SourceEntry| entry_code(e))) + " }"@
}

/// A Rust expression for a source inventory.
pub fn source_inventory_expr(inventory: &SourceInventory) -> (r: String)
    ensures
        r@ == inventory_code(*inventory),
{
    let ghost all = inventory.entries@.map_values(|e: SourceEntry| entry_code(e));
    let mut parts: Vec<String> = Vec::new();
    let mut i: usize = 0;
    while i < inventory.entries.len()
        invariant
            i <= inventory.entries@.len(),
            all == inventory.entries@.map_values(|e: SourceEntry| entry_code(e)),
            codes_of(parts@) == all.take(i as int),
        decreases inventory.entries.len() - i,
    {
        let item = source_entry_expr(&inventory.entries[i]);
        proof {
            lemma_codes_push(parts@, item);
            assert(all.take(i + 1) =~= all.take(i as int).push(item@));
        }
        parts.push(item);
        i += 1;
    }
    assert(all.take(all.len() as int) =~= all);
    let v = vec_expr(parts.as_slice());
    wrap("SourceInventory { entries: ", v.as_str(), " }")
}

/// The code of a call argument whose value has the code `value`.
pub open spec fn call_arg_code(name: Seq<char>, value: Seq<char>) -> Seq<char> {
    "ExecCallArg { name: "@ + owned_code(name) + ", value: "@ + value + " }"@
}

/// The code of a `WHEN` arm whose value has the code `value`.
pub open spec fn when_arm_code(pattern: Seq<char>, value: Seq<char>) -> Seq<char> {
    "ExecWhenArm { pattern: "@ + owned_code(pattern) + ", value: "@ + value + " }"@
}

/// The code of a binary executable expression.
pub open spec fn binary_code(variant: Seq<char>, left: Seq<char>, right: Seq<char>) -> Seq<char> {
    "ExecExpr::"@ + variant + " { left: Box::new("@ + left + "), right: Box::new("@ + right + ") }"@
}

/// A Rust expression for an executable expression.
pub open spec fn exec_expr_code(e: ExecExpr) -> Seq<char>
    decreases e, 0int,
{
    match e {
        ExecExpr::Number { value } => "ExecExpr::Number { value: "@ + int_chars(value as int) + " }"@,
        ExecExpr::Text { value } => "ExecExpr::Text { value: "@ + owned_code(value@) + " }"@,
        ExecExpr::Bool { value } => "ExecExpr::Bool { value: "@ + bool_code(value) + " }"@,
        ExecExpr::Tag { value } => "ExecExpr::Tag { value: "@ + owned_code(value@) + " }"@,
        ExecExpr::State { path } => "ExecExpr::State { path: "@ + owned_code(path@) + " }"@,
        ExecExpr::Source { path } => "ExecExpr::Source { path: "@ + owned_code(path@) + " }"@,
        ExecExpr::Add { left, right } => binary_code("Add"@, exec_expr_code(*left), exec_expr_code(*right)),
        ExecExpr::Subtract { left, right } => binary_code("Subtract"@, exec_expr_code(*left), exec_expr_code(*right)),
        ExecExpr::Equal { left, right } => binary_code("Equal"@, exec_expr_code(*left), exec_expr_code(*right)),
        ExecExpr::TextFromNumber { value } => "ExecExpr::TextFromNumber { value: Box::new("@ + exec_expr_code(*value) + ") }"@,
        ExecExpr::Call { path, args } => "ExecExpr::Call { path: "@ + owned_code(path@) + ", args: "@
            + vec_code(call_arg_codes(args@, args@.len() as int)) + " }"@,
        ExecExpr::When { arms } => "ExecExpr::When { arms: "@ + vec_code(when_arm_codes(arms@, arms@.len() as int)) + " }"@,
        ExecExpr::Skip => "ExecExpr::Skip"@,
    }
}

/// The codes of the first `n` call arguments.
pub open spec fn call_arg_codes(args: Seq<ExecCallArg>, n: int) -> Seq<Seq<char>>
    decreases args, n,
{
    if n <= 0 || n > args.len() {
        Seq::empty()
    } else {
        call_arg_codes(args, n - 1).push(call_arg_code(args[n - 1].name@, exec_expr_code(args[n - 1].value)))
    }
}

/// The codes of the first `n` `WHEN` arms.
pub open spec fn when_arm_codes(arms: Seq<ExecWhenArm>, n: int) -> Seq<Seq<char>>
    decreases arms, n,
{
    if n <= 0 || n > arms.len() {
        Seq::empty()
    } else {
        when_arm_codes(arms, n - 1).push(when_arm_code(arms[n - 1].pattern@, exec_expr_code(arms[n - 1].value)))
    }
}

fn labelled(head: &str, label: &str, body: &str, tail: &str) -> (r: String)
    ensures
        r@ == head@ + label@ + body@ + tail@,
{
    let mut out: Vec<char> = Vec::new();
    push_str(&mut out, head);
    push_str(&mut out, label);
    push_str(&mut out, body);
    push_str(&mut out, tail);
    string_of(&out)
}

fn pair_code(head: &str, a: &str, mid: &str, b: &str, tail: &str) -> (r: String)
    ensures
        r@ == head@ + a@ + mid@ + b@ + tail@,
{
    let mut out: Vec<char> = Vec::new();
    push_str(&mut out, head);
    push_str(&mut out, a);
    push_str(&mut out, mid);
    push_str(&mut out, b);
    push_str(&mut out, tail);
    string_of(&out)
}

fn binary_expr(variant: &str, left: &str, right: &str) -> (r: String)
    ensures
        r@ == binary_code(variant@, left@, right@),
{
    let mut out: Vec<char> = Vec::new();
    push_str(&mut out, "ExecExpr::");
    push_str(&mut out, variant);
    push_str(&mut out, " { left: Box::new(");
    push_str(&mut out, left);
    push_str(&mut out, "), right: Box::new(");
    push_str(&mut out, right);
    push_str(&mut out, ") }");
    string_of(&out)
}

fn number_code(head: &str, value: i64, tail: &str) -> (r: String)
    ensures
        r@ == head@ + int_chars(value as int) + tail@,
{
    let mut out: Vec<char> = Vec::new();
    push_str(&mut out, head);
    push_i64(&mut out, value);
    push_str(&mut out, tail);
    string_of(&out)
}

/// A Rust expression for an executable expression.
#[verifier::loop_isolation(false)]
pub fn exec_expr_expr(expr: &ExecExpr) -> (r: String)
    ensures
        r@ == exec_expr_code(*expr),
    decreases expr,
{
    match expr {
        ExecExpr::Number { value } => number_code("ExecExpr::Number { value: ", *value, " }"),
        ExecExpr::Text { value } => wrap("ExecExpr::Text { value: ", owned_string_expr(value.as_str()).as_str(), " }"),
        ExecExpr::Bool { value } => wrap("ExecExpr::Bool { value: ", bool_word(*value), " }"),
        ExecExpr::Tag { value } => wrap("ExecExpr::Tag { value: ", owned_string_expr(value.as_str()).as_str(), " }"),
        ExecExpr::State { path } => wrap("ExecExpr::State { path: ", owned_string_expr(path.as_str()).as_str(), " }"),
        ExecExpr::Source { path } => wrap("ExecExpr::Source { path: ", owned_string_expr(path.as_str()).as_str(), " }"),
        ExecExpr::Add { left, right } => {
            let l = exec_expr_expr(&**left);
            let r = exec_expr_expr(&**right);
            binary_expr("Add", l.as_str(), r.as_str())
        },
        ExecExpr::Subtract { left, right } => {
            let l = exec_expr_expr(&**left);
            let r = exec_expr_expr(&**right);
            binary_expr("Subtract", l.as_str(), r.as_str())
        },
        ExecExpr::Equal { left, right } => {
            let l = exec_expr_expr(&**left);
            let r = exec_expr_expr(&**right);
            binary_expr("Equal", l.as_str(), r.as_str())
        },
        ExecExpr::TextFromNumber { value } => {
            let v = exec_expr_expr(&**value);
            wrap("ExecExpr::TextFromNumber { value: Box::new(", v.as_str(), ") }")
        },
        ExecExpr::Call { path, args } => {
            let mut parts: Vec<String> = Vec::new();
            let mut i: usize = 0;
            while i < args.len()
                invariant
                    i <= args@.len(),
                    codes_of(parts@) == call_arg_codes(args@, i as int),
                decreases args.len() - i,
            {
                proof {
                    assert(decreases_to!(*expr => (*expr)->Call_args));
                    assert(decreases_to!(args => args@));
                    assert(decreases_to!(args@ => args@[i as int]));
                    assert(decreases_to!(args@[i as int] => args@[i as int].value));
                }
                let v = exec_expr_expr(&args[i].value);
                let name = owned_string_expr(args[i].name.as_str());
                let item = pair_code("ExecCallArg { name: ", name.as_str(), ", value: ", v.as_str(), " }");
                proof {
                    lemma_codes_push(parts@, item);
                }
                parts.push(item);
                i += 1;
            }
            let p = owned_string_expr(path.as_str());
            let v = vec_expr(parts.as_slice());
            pair_code("ExecExpr::Call { path: ", p.as_str(), ", args: ", v.as_str(), " }")
        },
        ExecExpr::When { arms } => {
            let mut parts: Vec<String> = Vec::new();
            let mut i: usize = 0;
            while i < arms.len()
                invariant
                    i <= arms@.len(),
                    codes_of(parts@) == when_arm_codes(arms@, i as int),
                decreases arms.len() - i,
            {
                proof {
                    assert(decreases_to!(*expr => (*expr)->When_arms));
                    assert(decreases_to!(arms => arms@));
                    assert(decreases_to!(arms@ => arms@[i as int]));
                    assert(decreases_to!(arms@[i as int] => arms@[i as int].value));
                }
                let v = exec_expr_expr(&arms[i].value);
                let pattern = owned_string_expr(arms[i].pattern.as_str());
                let item = pair_code("ExecWhenArm { pattern: ", pattern.as_str(), ", value: ", v.as_str(), " }");
                proof {
                    lemma_codes_push(parts@, item);
                }
                parts.push(item);
                i += 1;
            }
            let v = vec_expr(parts.as_slice());
            wrap("ExecExpr::When { arms: ", v.as_str(), " }")
        },
        ExecExpr::Skip => "ExecExpr::Skip".to_owned(),
    }
}

/// A Rust expression for a call argument.
pub fn exec_call_arg_expr(arg: &ExecCallArg) -> (r: String)
    ensures
        r@ == call_arg_code(arg.name@, exec_expr_code(arg.value)),
{
    let name = owned_string_expr(arg.name.as_str());
    let v = exec_expr_expr(&arg.value);
    pair_code("ExecCallArg { name: ", name.as_str(), ", value: ", v.as_str(), " }")
}

/// A Rust expression for a `WHEN` arm.
pub fn exec_when_arm_expr(arm: &ExecWhenArm) -> (r: String)
    ensures
        r@ == when_arm_code(arm.pattern@, exec_expr_code(arm.value)),
{
    let pattern = owned_string_expr(arm.pattern.as_str());
    let v = exec_expr_expr(&arm.value);
    pair_code("ExecWhenArm { pattern: ", pattern.as_str(), ", value: ", v.as_str(), " }")
}

/// A Rust expression for an executable effect.
pub open spec fn exec_effect_code(e: ExecEffect) -> Seq<char> {
    match e {
        ExecEffect::SetState { path, value } =>
            "ExecEffect::SetState { path: "@ + owned_code(path@) + ", value: "@ + exec_expr_code(value) + " }"@,
    }
}

/// A Rust expression for an executable effect.
pub fn exec_effect_expr(effect: &ExecEffect) -> (r: String)
    ensures
        r@ == exec_effect_code(*effect),
{
    match effect {
        ExecEffect::SetState { path, value } => {
            let p = owned_string_expr(path.as_str());
            let v = exec_expr_expr(value);
            pair_code("ExecEffect::SetState { path: ", p.as_str(), ", value: ", v.as_str(), " }")
        },
    }
}

/// A Rust expression for an executable state slot.
pub open spec fn state_slot_code(s: ExecStateSlot) -> Seq<char> {
    "ExecStateSlot { path: "@ + owned_code(s.path@) + ", initial: "@ + exec_expr_code(s.initial) + " }"@
}

/// A Rust expression for an executable state slot.
pub fn exec_state_slot_expr(slot: &ExecStateSlot) -> (r: String)
    ensures
        r@ == state_slot_code(*slot),
{
    let p = owned_string_expr(slot.path.as_str());
    let v = exec_expr_expr(&slot.initial);
    pair_code("ExecStateSlot { path: ", p.as_str(), ", initial: ", v.as_str(), " }")
}

/// A Rust expression for an executable source handler.
pub open spec fn source_handler_code(h: ExecSourceHandler) -> Seq<char> {
    "ExecSourceHandler { source_path: "@ + owned_code(h.source_path@) + ", effects: "@
        + vec_code(h.effects@.map_values(|e: ExecEffect| exec_effect_code(e))) + " }"@
}

/// A Rust expression for an executable source handler.
pub fn exec_source_handler_expr(handler: &ExecSourceHandler) -> (r: String)
    ensures
        r@ == source_handler_code(*handler),
{
    let ghost all = handler.effects@.map_values(|e: ExecEffect| exec_effect_code(e));
    let mut parts: Vec<String> = Vec::new();
    let mut i: usize = 0;
    while i < handler.effects.len()
        invariant
            i <= handler.effects@.len(),
            all == handler.effects@.map_values(|e: ExecEffect| exec_effect_code(e)),
            codes_of(parts@) == all.take(i as int),
        decreases handler.effects.len() - i,
    {
        let item = exec_effect_expr(&handler.effects[i]);
        proof {
            lemma_codes_push(parts@, item);
            assert(all.take(i + 1) =~= all.take(i as int).push(item@));
        }
        parts.push(item);
        i += 1;
    }
    assert(all.take(all.len() as int) =~= all);
    let p = owned_string_expr(handler.source_path.as_str());
    let v = vec_expr(parts.as_slice());
    pair_code("ExecSourceHandler { source_path: ", p.as_str(), ", effects: ", v.as_str(), " }")
}

/// A Rust expression for an event predicate.
pub open spec fn predicate_code(p: IrPredicate) -> Seq<char> {
    match p {
        IrPredicate::SourceTagEquals { path, tag } =>
            "IrPredicate::SourceTagEquals { path: "@ + owned_code(path@) + ", tag: "@ + owned_code(tag@) + " }"@,
    }
}

/// A Rust expression for an event predicate.
pub fn ir_predicate_expr(predicate: &IrPredicate) -> (r: String)
    ensures
        r@ == predicate_code(*predicate),
{
    match predicate {
        IrPredicate::SourceTagEquals { path, tag } => {
            let p = owned_string_expr(path.as_str());
            let t = owned_string_expr(tag.as_str());
            pair_code("IrPredicate::SourceTagEquals { path: ", p.as_str(), ", tag: ", t.as_str(), " }")
        },
    }
}

/// A Rust expression for a predicate on list records.
pub open spec fn collection_predicate_code(p: IrCollectionPredicate) -> Seq<char> {
    match p {
        IrCollectionPredicate::FieldBoolEquals { field, value } =>
            "IrCollectionPredicate::FieldBoolEquals { field: "@ + owned_code(field@) + ", value: "@ + bool_code(value) + " }"@,
    }
}

/// A Rust expression for a predicate on list records.
pub fn ir_collection_predicate_expr(predicate: &IrCollectionPredicate) -> (r: String)
    ensures
        r@ == collection_predicate_code(*predicate),
{
    match predicate {
        IrCollectionPredicate::FieldBoolEquals { field, value } => {
            let f = owned_string_expr(field.as_str());
            pair_code("IrCollectionPredicate::FieldBoolEquals { field: ", f.as_str(), ", value: ", bool_word(*value), " }")
        },
    }
}

/// A Rust expression for a value expression of the app IR.
pub open spec fn value_expr_code(e: IrValueExpr) -> Seq<char>
    decreases e,
{
    match e {
        IrValueExpr::Number { value } => "IrValueExpr::Number { value: "@ + int_chars(value as int) + " }"@,
        IrValueExpr::Hold { state_path } => "IrValueExpr::Hold { state_path: "@ + owned_code(state_path@) + " }"@,
        IrValueExpr::Add { left, right } => "IrValueExpr::Add { left: Box::new("@ + value_expr_code(*left)
            + "), right: Box::new("@ + value_expr_code(*right) + ") }"@,
        IrValueExpr::Source { path } => "IrValueExpr::Source { path: "@ + owned_code(path@) + " }"@,
        IrValueExpr::Skip => "IrValueExpr::Skip"@,
    }
}

/// A Rust expression for a value expression of the app IR.
pub fn ir_value_expr_expr(expr: &IrValueExpr) -> (r: String)
    ensures
        r@ == value_expr_code(*expr),
    decreases expr,
{
    match expr {
        IrValueExpr::Number { value } => number_code("IrValueExpr::Number { value: ", *value, " }"),
        IrValueExpr::Hold { state_path } => wrap("IrValueExpr::Hold { state_path: ", owned_string_expr(state_path.as_str()).as_str(), " }"),
        IrValueExpr::Add { left, right } => {
            let l = ir_value_expr_expr(&**left);
            let r = ir_value_expr_expr(&**right);
            pair_code("IrValueExpr::Add { left: Box::new(", l.as_str(), "), right: Box::new(", r.as_str(), ") }")
        },
        IrValueExpr::Source { path } => wrap("IrValueExpr::Source { path: ", owned_string_expr(path.as_str()).as_str(), " }"),
        IrValueExpr::Skip => "IrValueExpr::Skip".to_owned(),
    }
}

/// The code of a field of a static record whose value has the code
/// `value`.
pub open spec fn static_field_code(key: Seq<char>, value: Seq<char>) -> Seq<char> {
    "IrStaticField { key: "@ + owned_code(key) + ", value: "@ + value + " }"@
}

/// A Rust expression for a static value.
pub open spec fn static_value_code(v: IrStaticValue) -> Seq<char>
    decreases v, 0int,
{
    match v {
        IrStaticValue::Text { value } => "IrStaticValue::Text { value: "@ + owned_code(value@) + " }"@,
        IrStaticValue::Number { value } => "IrStaticValue::Number { value: "@ + int_chars(value as int) + " }"@,
        IrStaticValue::Bool { value } => "IrStaticValue::Bool { value: "@ + bool_code(value) + " }"@,
        IrStaticValue::Tag { value } => "IrStaticValue::Tag { value: "@ + owned_code(value@) + " }"@,
        IrStaticValue::Path { value } => "IrStaticValue::Path { value: "@ + owned_code(value@) + " }"@,
        IrStaticValue::Range { from, to } => "IrStaticValue::Range { from: "@ + int_chars(from as int) + ", to: "@
            + int_chars(to as int) + " }"@,
        IrStaticValue::Record { fields } => "IrStaticValue::Record { fields: "@
            + vec_code(static_field_codes(fields@, fields@.len() as int)) + " }"@,
        IrStaticValue::List { items } => "IrStaticValue::List { items: "@
            + vec_code(static_value_codes(items@, items@.len() as int)) + " }"@,
    }
}

/// The codes of the first `n` fields of a static record.
pub open spec fn static_field_codes(fields: Seq<IrStaticField>, n: int) -> Seq<Seq<char>>
    decreases fields, n,
{
    if n <= 0 || n > fields.len() {
        Seq::empty()
    } else {
        static_field_codes(fields, n - 1).push(static_field_code(fields[n - 1].key@, static_value_code(fields[n - 1].value)))
    }
}

/// The codes of the first `n` static values.
pub open spec fn static_value_codes(items: Seq<IrStaticValue>, n: int) -> Seq<Seq<char>>
    decreases items, n,
{
    if n <= 0 || n > items.len() {
        Seq::empty()
    } else {
        static_value_codes(items, n - 1).push(static_value_code(items[n - 1]))
    }
}

/// A Rust expression for a static value.
#[verifier::loop_isolation(false)]
pub fn ir_static_value_expr(value: &IrStaticValue) -> (r: String)
    ensures
        r@ == static_value_code(*value),
    decreases value,
{
    match value {
        IrStaticValue::Text { value: t } => wrap("IrStaticValue::Text { value: ", owned_string_expr(t.as_str()).as_str(), " }"),
        IrStaticValue::Number { value: n } => number_code("IrStaticValue::Number { value: ", *n, " }"),
        IrStaticValue::Bool { value: b } => wrap("IrStaticValue::Bool { value: ", bool_word(*b), " }"),
        IrStaticValue::Tag { value: t } => wrap("IrStaticValue::Tag { value: ", owned_string_expr(t.as_str()).as_str(), " }"),
        IrStaticValue::Path { value: t } => wrap("IrStaticValue::Path { value: ", owned_string_expr(t.as_str()).as_str(), " }"),
        IrStaticValue::Range { from, to } => {
            let mut out: Vec<char> = Vec::new();
            push_str(&mut out, "IrStaticValue::Range { from: ");
            push_i64(&mut out, *from);
            push_str(&mut out, ", to: ");
            push_i64(&mut out, *to);
            push_str(&mut out, " }");
            string_of(&out)
        },
        IrStaticValue::Record { fields } => {
            let mut parts: Vec<String> = Vec::new();
            let mut i: usize = 0;
            while i < fields.len()
                invariant
                    i <= fields@.len(),
                    codes_of(parts@) == static_field_codes(fields@, i as int),
                decreases fields.len() - i,
            {
                proof {
                    assert(decreases_to!(*value => (*value)->Record_fields));
                    assert(decreases_to!(fields => fields@));
                    assert(decreases_to!(fields@ => fields@[i as int]));
                    assert(decreases_to!(fields@[i as int] => fields@[i as int].value));
                }
                let v = ir_static_value_expr(&fields[i].value);
                let key = owned_string_expr(fields[i].key.as_str());
                let item = pair_code("IrStaticField { key: ", key.as_str(), ", value: ", v.as_str(), " }");
                proof {
                    lemma_codes_push(parts@, item);
                }
                parts.push(item);
                i += 1;
            }
            let v = vec_expr(parts.as_slice());
            wrap("IrStaticValue::Record { fields: ", v.as_str(), " }")
        },
        IrStaticValue::List { items } => {
            let mut parts: Vec<String> = Vec::new();
            let mut i: usize = 0;
            while i < items.len()
                invariant
                    i <= items@.len(),
                    codes_of(parts@) == static_value_codes(items@, i as int),
                decreases items.len() - i,
            {
                proof {
                    assert(decreases_to!(*value => (*value)->List_items));
                    assert(decreases_to!(items => items@));
                    assert(decreases_to!(items@ => items@[i as int]));
                }
                let item = ir_static_value_expr(&items[i]);
                proof {
                    lemma_codes_push(parts@, item);
                }
                parts.push(item);
                i += 1;
            }
            let v = vec_expr(parts.as_slice());
            wrap("IrStaticValue::List { items: ", v.as_str(), " }")
        },
    }
}

/// A Rust expression for a field of a static record.
pub open spec fn literal_field_code(f: IrStaticField) -> Seq<char> {
    static_field_code(f.key@, static_value_code(f.value))
}

/// A Rust expression for a field of a static record.
pub fn ir_literal_field_expr(field: &IrStaticField) -> (r: String)
    ensures
        r@ == literal_field_code(*field),
{
    let key = owned_string_expr(field.key.as_str());
    let v = ir_static_value_expr(&field.value);
    pair_code("IrStaticField { key: ", key.as_str(), ", value: ", v.as_str(), " }")
}


fn literal_fields_expr(items: &Vec<IrStaticField>) -> (r: String)
    ensures
        r@ == vec_code(items@.map_values(|x: IrStaticField| literal_field_code(x))),
{
    let ghost all = items@.map_values(|x: IrStaticField| literal_field_code(x));
    let mut parts: Vec<String> = Vec::new();
    let mut i: usize = 0;
    while i < items.len()
        invariant
            i <= items@.len(),
            all == items@.map_values(|x: IrStaticField| literal_field_code(x)),
            codes_of(parts@) == all.take(i as int),
        decreases items.len() - i,
    {
        let item = ir_literal_field_expr(&items[i]);
        proof {
            lemma_codes_push(parts@, item);
            assert(all.take(i + 1) =~= all.take(i as int).push(item@));
        }
        parts.push(item);
        i += 1;
    }
    assert(all.take(all.len() as int) =~= all);
    vec_expr(parts.as_slice())
}

/// A Rust expression for a static record.
pub open spec fn static_record_code(r: IrStaticRecord) -> Seq<char> {
    "IrStaticRecord { path: "@ + owned_code(r.path@) + ", fields: "@
        + vec_code(r.fields@.map_values(|x: IrStaticField| literal_field_code(x))) + " }"@
}

/// A Rust expression for a static record.
pub fn ir_static_record_expr(record: &IrStaticRecord) -> (r: String)
    ensures
        r@ == static_record_code(*record),
{
    let p = owned_string_expr(record.path.as_str());
    let f = literal_fields_expr(&record.fields);
    pair_code("IrStaticRecord { path: ", p.as_str(), ", fields: ", f.as_str(), " }")
}

/// A Rust expression for an initial entry of a list.
pub open spec fn collection_seed_code(s: IrCollectionSeed) -> Seq<char> {
    "IrCollectionSeed { fields: "@ + vec_code(s.fields@.map_values(|x: IrStaticField| literal_field_code(x))) + " }"@
}

/// A Rust expression for an initial entry of a list.
pub fn ir_collection_seed_expr(seed: &IrCollectionSeed) -> (r: String)
    ensures
        r@ == collection_seed_code(*seed),
{
    let f = literal_fields_expr(&seed.fields);
    wrap("IrCollectionSeed { fields: ", f.as_str(), " }")
}


fn collection_seeds_expr(items: &Vec<IrCollectionSeed>) -> (r: String)
    ensures
        r@ == vec_code(items@.map_values(|x: IrCollectionSeed| collection_seed_code(x))),
{
    let ghost all = items@.map_values(|x: IrCollectionSeed| collection_seed_code(x));
    let mut parts: Vec<String> = Vec::new();
    let mut i: usize = 0;
    while i < items.len()
        invariant
            i <= items@.len(),
            all == items@.map_values(|x: IrCollectionSeed| collection_seed_code(x)),
            codes_of(parts@) == all.take(i as int),
        decreases items.len() - i,
    {
        let item = ir_collection_seed_expr(&items[i]);
        proof {
            lemma_codes_push(parts@, item);
            assert(all.take(i + 1) =~= all.take(i as int).push(item@));
        }
        parts.push(item);
        i += 1;
    }
    assert(all.take(all.len() as int) =~= all);
    vec_expr(parts.as_slice())
}

/// A Rust expression for a list state.
pub open spec fn collection_state_code(s: IrCollectionState) -> Seq<char> {
    "IrCollectionState { path: "@ + owned_code(s.path@) + ", initial_entries: "@
        + vec_code(s.initial_entries@.map_values(|x: IrCollectionSeed| collection_seed_code(x))) + " }"@
}

/// A Rust expression for a list state.
pub fn ir_collection_state_expr(state: &IrCollectionState) -> (r: String)
    ensures
        r@ == collection_state_code(*state),
{
    let p = owned_string_expr(state.path.as_str());
    let e = collection_seeds_expr(&state.initial_entries);
    pair_code("IrCollectionState { path: ", p.as_str(), ", initial_entries: ", e.as_str(), " }")
}

/// A Rust expression for a state cell.
pub open spec fn state_cell_code(c: IrStateCell) -> Seq<char> {
    "IrStateCell { path: "@ + owned_code(c.path@) + ", initial: "@ + value_expr_code(c.initial) + " }"@
}

/// A Rust expression for a state cell.
pub fn ir_state_cell_expr(cell: &IrStateCell) -> (r: String)
    ensures
        r@ == state_cell_code(*cell),
{
    let p = owned_string_expr(cell.path.as_str());
    let v = ir_value_expr_expr(&cell.initial);
    pair_code("IrStateCell { path: ", p.as_str(), ", initial: ", v.as_str(), " }")
}

/// A Rust expression for a value that a list effect writes.
pub open spec fn collection_value_code(v: IrCollectionValueExpr) -> Seq<char> {
    match v {
        IrCollectionValueExpr::Static { value } =>
            "IrCollectionValueExpr::Static { value: "@ + static_value_code(value) + " }"@,
        IrCollectionValueExpr::SourceText { path, trim } =>
            "IrCollectionValueExpr::SourceText { path: "@ + owned_code(path@) + ", trim: "@ + bool_code(trim) + " }"@,
        IrCollectionValueExpr::NotOwnerBoolField { field } =>
            "IrCollectionValueExpr::NotOwnerBoolField { field: "@ + owned_code(field@) + " }"@,
        IrCollectionValueExpr::NotAllBoolField { field } =>
            "IrCollectionValueExpr::NotAllBoolField { field: "@ + owned_code(field@) + " }"@,
    }
}

/// A Rust expression for a value that a list effect writes.
pub fn ir_collection_value_expr_expr(value: &IrCollectionValueExpr) -> (r: String)
    ensures
        r@ == collection_value_code(*value),
{
    match value {
        IrCollectionValueExpr::Static { value } => wrap("IrCollectionValueExpr::Static { value: ", ir_static_value_expr(value).as_str(), " }"),
        IrCollectionValueExpr::SourceText { path, trim } => {
            let p = owned_string_expr(path.as_str());
            pair_code("IrCollectionValueExpr::SourceText { path: ", p.as_str(), ", trim: ", bool_word(*trim), " }")
        },
        IrCollectionValueExpr::NotOwnerBoolField { field } =>
            wrap("IrCollectionValueExpr::NotOwnerBoolField { field: ", owned_string_expr(field.as_str()).as_str(), " }"),
        IrCollectionValueExpr::NotAllBoolField { field } =>
            wrap("IrCollectionValueExpr::NotAllBoolField { field: ", owned_string_expr(field.as_str()).as_str(), " }"),
    }
}

/// A Rust expression for a field that a list append writes.
pub open spec fn field_assignment_code(a: IrCollectionFieldAssignment) -> Seq<char> {
    "IrCollectionFieldAssignment { field: "@ + owned_code(a.field@) + ", value: "@ + collection_value_code(a.value) + " }"@
}

/// A Rust expression for a field that a list append writes.
pub fn ir_collection_field_assignment_expr(field: &IrCollectionFieldAssignment) -> (r: String)
    ensures
        r@ == field_assignment_code(*field),
{
    let f = owned_string_expr(field.field.as_str());
    let v = ir_collection_value_expr_expr(&field.value);
    pair_code("IrCollectionFieldAssignment { field: ", f.as_str(), ", value: ", v.as_str(), " }")
}


fn field_assignments_expr(items: &Vec<IrCollectionFieldAssignment>) -> (r: String)
    ensures
        r@ == vec_code(items@.map_values(|x: IrCollectionFieldAssignment| field_assignment_code(x))),
{
    let ghost all = items@.map_values(|x: IrCollectionFieldAssignment| field_assignment_code(x));
    let mut parts: Vec<String> = Vec::new();
    let mut i: usize = 0;
    while i < items.len()
        invariant
            i <= items@.len(),
            all == items@.map_values(|x: IrCollectionFieldAssignment| field_assignment_code(x)),
            codes_of(parts@) == all.take(i as int),
        decreases items.len() - i,
    {
        let item = ir_collection_field_assignment_expr(&items[i]);
        proof {
            lemma_codes_push(parts@, item);
            assert(all.take(i + 1) =~= all.take(i as int).push(item@));
        }
        parts.push(item);
        i += 1;
    }
    assert(all.take(all.len() as int) =~= all);
    vec_expr(parts.as_slice())
}

/// The code of a list effect that names a list and a field and writes a
/// value.
pub open spec fn field_effect_code(variant: Seq<char>, path: Seq<char>, field: Seq<char>, value: Seq<char>) -> Seq<char> {
    "IrEffect::"@ + variant + " { collection_path: "@ + owned_code(path) + ", field: "@ + owned_code(field) + ", value: "@
        + value + " }"@
}

fn field_effect_expr(variant: &str, path: &String, field: &String, value: &IrCollectionValueExpr) -> (r: String)
    ensures
        r@ == field_effect_code(variant@, path@, field@, collection_value_code(*value)),
{
    let p = owned_string_expr(path.as_str());
    let f = owned_string_expr(field.as_str());
    let v = ir_collection_value_expr_expr(value);
    let mut out: Vec<char> = Vec::new();
    push_str(&mut out, "IrEffect::");
    push_str(&mut out, variant);
    push_str(&mut out, " { collection_path: ");
    push_str(&mut out, p.as_str());
    push_str(&mut out, ", field: ");
    push_str(&mut out, f.as_str());
    push_str(&mut out, ", value: ");
    push_str(&mut out, v.as_str());
    push_str(&mut out, " }");
    string_of(&out)
}

/// A Rust expression for an effect of an event handler.
pub open spec fn effect_code(e: IrEffect) -> Seq<char> {
    match e {
        IrEffect::Assign { state_path, expr } =>
            "IrEffect::Assign { state_path: "@ + owned_code(state_path@) + ", expr: "@ + value_expr_code(expr) + " }"@,
        IrEffect::CollectionAppendRecord { collection_path, fields, skip_if_empty_field } =>
            "IrEffect::CollectionAppendRecord { collection_path: "@ + owned_code(collection_path@) + ", fields: "@
                + vec_code(fields@.map_values(|x: IrCollectionFieldAssignment| field_assignment_code(x)))
                + ", skip_if_empty_field: "@ + option_string_code(opt_text(skip_if_empty_field)) + " }"@,
        IrEffect::CollectionUpdateAllFields { collection_path, field, value } =>
            field_effect_code("CollectionUpdateAllFields"@, collection_path@, field@, collection_value_code(value)),
        IrEffect::CollectionUpdateOwnerField { collection_path, field, value } =>
            field_effect_code("CollectionUpdateOwnerField"@, collection_path@, field@, collection_value_code(value)),
        IrEffect::CollectionRemoveCurrent { collection_path } =>
            "IrEffect::CollectionRemoveCurrent { collection_path: "@ + owned_code(collection_path@) + " }"@,
        IrEffect::CollectionRemoveWhere { collection_path, predicate } =>
            "IrEffect::CollectionRemoveWhere { collection_path: "@ + owned_code(collection_path@) + ", predicate: "@
                + collection_predicate_code(predicate) + " }"@,
        IrEffect::SetTagState { state_path, value } =>
            "IrEffect::SetTagState { state_path: "@ + owned_code(state_path@) + ", value: "@ + owned_code(value@) + " }"@,
        IrEffect::ClearText { text_state_path } =>
            "IrEffect::ClearText { text_state_path: "@ + owned_code(text_state_path@) + " }"@,
    }
}

/// A Rust expression for an effect of an event handler.
pub fn ir_effect_expr(effect: &IrEffect) -> (r: String)
    ensures
        r@ == effect_code(*effect),
{
    match effect {
        IrEffect::Assign { state_path, expr } => {
            let p = owned_string_expr(state_path.as_str());
            let v = ir_value_expr_expr(expr);
            pair_code("IrEffect::Assign { state_path: ", p.as_str(), ", expr: ", v.as_str(), " }")
        },
        IrEffect::CollectionAppendRecord { collection_path, fields, skip_if_empty_field } => {
            let p = owned_string_expr(collection_path.as_str());
            let f = field_assignments_expr(fields);
            let s = option_string_of(skip_if_empty_field);
            let mut out: Vec<char> = Vec::new();
            push_str(&mut out, "IrEffect::CollectionAppendRecord { collection_path: ");
            push_str(&mut out, p.as_str());
            push_str(&mut out, ", fields: ");
            push_str(&mut out, f.as_str());
            push_str(&mut out, ", skip_if_empty_field: ");
            push_str(&mut out, s.as_str());
            push_str(&mut out, " }");
            string_of(&out)
        },
        IrEffect::CollectionUpdateAllFields { collection_path, field, value } =>
            field_effect_expr("CollectionUpdateAllFields", collection_path, field, value),
        IrEffect::CollectionUpdateOwnerField { collection_path, field, value } =>
            field_effect_expr("CollectionUpdateOwnerField", collection_path, field, value),
        IrEffect::CollectionRemoveCurrent { collection_path } =>
            wrap("IrEffect::CollectionRemoveCurrent { collection_path: ", owned_string_expr(collection_path.as_str()).as_str(), " }"),
        IrEffect::CollectionRemoveWhere { collection_path, predicate } => {
            let p = owned_string_expr(collection_path.as_str());
            let q = ir_collection_predicate_expr(predicate);
            pair_code("IrEffect::CollectionRemoveWhere { collection_path: ", p.as_str(), ", predicate: ", q.as_str(), " }")
        },
        IrEffect::SetTagState { state_path, value } => {
            let p = owned_string_expr(state_path.as_str());
            let v = owned_string_expr(value.as_str());
            pair_code("IrEffect::SetTagState { state_path: ", p.as_str(), ", value: ", v.as_str(), " }")
        },
        IrEffect::ClearText { text_state_path } =>
            wrap("IrEffect::ClearText { text_state_path: ", owned_string_expr(text_state_path.as_str()).as_str(), " }"),
    }
}


fn effects_expr(items: &Vec<IrEffect>) -> (r: String)
    ensures
        r@ == vec_code(items@.map_values(|x: IrEffect| effect_code(x))),
{
    let ghost all = items@.map_values(|x: IrEffect| effect_code(x));
    let mut parts: Vec<String> = Vec::new();
    let mut i: usize = 0;
    while i < items.len()
        invariant
            i <= items@.len(),
            all == items@.map_values(|x: IrEffect| effect_code(x)),
            codes_of(parts@) == all.take(i as int),
        decreases items.len() - i,
    {
        let item = ir_effect_expr(&items[i]);
        proof {
            lemma_codes_push(parts@, item);
            assert(all.take(i + 1) =~= all.take(i as int).push(item@));
        }
        parts.push(item);
        i += 1;
    }
    assert(all.take(all.len() as int) =~= all);
    vec_expr(parts.as_slice())
}

/// The view of an optional predicate's code.
pub open spec fn opt_predicate_code(p: Option<IrPredicate>) -> Option<Seq<char>> {
    match p {
        Some(x) => Some(predicate_code(x)),
        None => None,
    }
}

/// A Rust expression for an event handler of the app IR.
pub open spec fn event_handler_code(h: IrEventHandler) -> Seq<char> {
    "IrEventHandler { source_path: "@ + owned_code(h.source_path@) + ", when: "@ + option_code(opt_predicate_code(h.when))
        + ", effects: "@ + vec_code(h.effects@.map_values(|x: IrEffect| effect_code(x))) + " }"@
}

/// A Rust expression for an event handler of the app IR.
pub fn ir_event_handler_expr(handler: &IrEventHandler) -> (r: String)
    ensures
        r@ == event_handler_code(*handler),
{
    let p = owned_string_expr(handler.source_path.as_str());
    let w = match &handler.when {
        Some(q) => option_expr(Some(ir_predicate_expr(q))),
        None => option_expr(None),
    };
    let e = effects_expr(&handler.effects);
    let mut out: Vec<char> = Vec::new();
    push_str(&mut out, "IrEventHandler { source_path: ");
    push_str(&mut out, p.as_str());
    push_str(&mut out, ", when: ");
    push_str(&mut out, w.as_str());
    push_str(&mut out, ", effects: ");
    push_str(&mut out, e.as_str());
    push_str(&mut out, " }");
    string_of(&out)
}

/// A Rust expression for the kind of a render node.
pub open spec fn render_kind_code(k: IrRenderKind) -> Seq<char> {
    match k {
        IrRenderKind::Root => "IrRenderKind::Root"@,
        IrRenderKind::Panel => "IrRenderKind::Panel"@,
        IrRenderKind::Text => "IrRenderKind::Text"@,
        IrRenderKind::Button => "IrRenderKind::Button"@,
        IrRenderKind::TextInput => "IrRenderKind::TextInput"@,
        IrRenderKind::Checkbox => "IrRenderKind::Checkbox"@,
        IrRenderKind::Label => "IrRenderKind::Label"@,
        IrRenderKind::Grid => "IrRenderKind::Grid"@,
        IrRenderKind::ListMap => "IrRenderKind::ListMap"@,
        IrRenderKind::Unknown => "IrRenderKind::Unknown"@,
    }
}

/// A Rust expression for the kind of a render node.
pub fn ir_render_kind_expr(kind: &IrRenderKind) -> (r: String)
    ensures
        r@ == render_kind_code(*kind),
{
    match kind {
        IrRenderKind::Root => "IrRenderKind::Root".to_owned(),
        IrRenderKind::Panel => "IrRenderKind::Panel".to_owned(),
        IrRenderKind::Text => "IrRenderKind::Text".to_owned(),
        IrRenderKind::Button => "IrRenderKind::Button".to_owned(),
        IrRenderKind::TextInput => "IrRenderKind::TextInput".to_owned(),
        IrRenderKind::Checkbox => "IrRenderKind::Checkbox".to_owned(),
        IrRenderKind::Label => "IrRenderKind::Label".to_owned(),
        IrRenderKind::Grid => "IrRenderKind::Grid".to_owned(),
        IrRenderKind::ListMap => "IrRenderKind::ListMap".to_owned(),
        IrRenderKind::Unknown => "IrRenderKind::Unknown".to_owned(),
    }
}

/// A Rust expression for the text of a render node.
pub open spec fn render_text_code(t: IrRenderText) -> Seq<char> {
    match t {
        IrRenderText::Literal { value } => "IrRenderText::Literal { value: "@ + owned_code(value@) + " }"@,
        IrRenderText::Binding { path } => "IrRenderText::Binding { path: "@ + owned_code(path@) + " }"@,
    }
}

/// A Rust expression for the text of a render node.
pub fn ir_render_text_expr(text: &IrRenderText) -> (r: String)
    ensures
        r@ == render_text_code(*text),
{
    match text {
        IrRenderText::Literal { value } => wrap("IrRenderText::Literal { value: ", owned_string_expr(value.as_str()).as_str(), " }"),
        IrRenderText::Binding { path } => wrap("IrRenderText::Binding { path: ", owned_string_expr(path.as_str()).as_str(), " }"),
    }
}

/// The view of an optional render text's code.
pub open spec fn opt_render_text_code(t: Option<IrRenderText>) -> Option<Seq<char>> {
    match t {
        Some(x) => Some(render_text_code(x)),
        None => None,
    }
}

/// A Rust expression for a render node and its children.
pub open spec fn render_node_code(n: IrRenderNode) -> Seq<char>
    decreases n, 0int,
{
    "IrRenderNode { id: "@ + owned_code(n.id@) + ", kind: "@ + render_kind_code(n.kind) + ", source_path: "@
        + option_string_code(opt_text(n.source_path)) + ", collection_path: "@
        + option_string_code(opt_text(n.collection_path)) + ", text: "@ + option_code(opt_render_text_code(n.text))
        + ", children: "@ + vec_code(render_node_codes(n.children@, n.children@.len() as int)) + " }"@
}

/// The codes of the first `n` render nodes.
pub open spec fn render_node_codes(nodes: Seq<IrRenderNode>, n: int) -> Seq<Seq<char>>
    decreases nodes, n,
{
    if n <= 0 || n > nodes.len() {
        Seq::empty()
    } else {
        render_node_codes(nodes, n - 1).push(render_node_code(nodes[n - 1]))
    }
}

/// A Rust expression for a render node and its children.
#[verifier::loop_isolation(false)]
pub fn ir_render_node_expr(node: &IrRenderNode) -> (r: String)
    ensures
        r@ == render_node_code(*node),
    decreases node,
{
    let mut parts: Vec<String> = Vec::new();
    let mut i: usize = 0;
    while i < node.children.len()
        invariant
            i <= node.children@.len(),
            codes_of(parts@) == render_node_codes(node.children@, i as int),
        decreases node.children.len() - i,
    {
        proof {
            assert(decreases_to!(*node => node.children));
            assert(decreases_to!(node.children => node.children@));
            assert(decreases_to!(node.children@ => node.children@[i as int]));
        }
        let item = ir_render_node_expr(&node.children[i]);
        proof {
            lemma_codes_push(parts@, item);
        }
        parts.push(item);
        i += 1;
    }
    let id = owned_string_expr(node.id.as_str());
    let kind = ir_render_kind_expr(&node.kind);
    let source_path = option_string_of(&node.source_path);
    let collection_path = option_string_of(&node.collection_path);
    let text = match &node.text {
        Some(t) => option_expr(Some(ir_render_text_expr(t))),
        None => option_expr(None),
    };
    let children = vec_expr(parts.as_slice());
    let mut out: Vec<char> = Vec::new();
    push_str(&mut out, "IrRenderNode { id: ");
    push_str(&mut out, id.as_str());
    push_str(&mut out, ", kind: ");
    push_str(&mut out, kind.as_str());
    push_str(&mut out, ", source_path: ");
    push_str(&mut out, source_path.as_str());
    push_str(&mut out, ", collection_path: ");
    push_str(&mut out, collection_path.as_str());
    push_str(&mut out, ", text: ");
    push_str(&mut out, text.as_str());
    push_str(&mut out, ", children: ");
    push_str(&mut out, children.as_str());
    push_str(&mut out, " }");
    string_of(&out)
}

/// The view of an optional render tree's code.
pub open spec fn opt_node_code(n: Option<IrRenderNode>) -> Option<Seq<char>> {
    match n {
        Some(x) => Some(render_node_code(x)),
        None => None,
    }
}

fn option_node_expr(node: &Option<IrRenderNode>) -> (r: String)
    ensures
        r@ == option_code(opt_node_code(*node)),
{
    match node {
        Some(n) => option_expr(Some(ir_render_node_expr(n))),
        None => option_expr(None),
    }
}

/// A Rust expression for the metadata of a compiled app.
pub open spec fn metadata_code(m: IrAppMetadata) -> Seq<char> {
    "IrAppMetadata { title: "@ + owned_code(m.title@) + ", primary_label: "@ + option_string_code(opt_text(m.primary_label))
        + ", physical_debug: "@ + bool_code(m.physical_debug) + " }"@
}

/// A Rust expression for the metadata of a compiled app.
pub fn ir_app_metadata_expr(program: &IrAppMetadata) -> (r: String)
    ensures
        r@ == metadata_code(*program),
{
    let t = owned_string_expr(program.title.as_str());
    let l = option_string_of(&program.primary_label);
    let mut out: Vec<char> = Vec::new();
    push_str(&mut out, "IrAppMetadata { title: ");
    push_str(&mut out, t.as_str());
    push_str(&mut out, ", primary_label: ");
    push_str(&mut out, l.as_str());
    push_str(&mut out, ", physical_debug: ");
    push_str(&mut out, bool_word(program.physical_debug));
    push_str(&mut out, " }");
    string_of(&out)
}


fn state_slots_expr(items: &Vec<ExecStateSlot>) -> (r: String)
    ensures
        r@ == vec_code(items@.map_values(|x: ExecStateSlot| state_slot_code(x))),
{
    let ghost all = items@.map_values(|x: ExecStateSlot| state_slot_code(x));
    let mut parts: Vec<String> = Vec::new();
    let mut i: usize = 0;
    while i < items.len()
        invariant
            i <= items@.len(),
            all == items@.map_values(|x: ExecStateSlot| state_slot_code(x)),
            codes_of(parts@) == all.take(i as int),
        decreases items.len() - i,
    {
        let item = exec_state_slot_expr(&items[i]);
        proof {
            lemma_codes_push(parts@, item);
            assert(all.take(i + 1) =~= all.take(i as int).push(item@));
        }
        parts.push(item);
        i += 1;
    }
    assert(all.take(all.len() as int) =~= all);
    vec_expr(parts.as_slice())
}

fn source_handlers_expr(items: &Vec<ExecSourceHandler>) -> (r: String)
    ensures
        r@ == vec_code(items@.map_values(|x: ExecSourceHandler| source_handler_code(x))),
{
    let ghost all = items@.map_values(|x: ExecSourceHandler| source_handler_code(x));
    let mut parts: Vec<String> = Vec::new();
    let mut i: usize = 0;
    while i < items.len()
        invariant
            i <= items@.len(),
            all == items@.map_values(|x: ExecSourceHandler| source_handler_code(x)),
            codes_of(parts@) == all.take(i as int),
        decreases items.len() - i,
    {
        let item = exec_source_handler_expr(&items[i]);
        proof {
            lemma_codes_push(parts@, item);
            assert(all.take(i + 1) =~= all.take(i as int).push(item@));
        }
        parts.push(item);
        i += 1;
    }
    assert(all.take(all.len() as int) =~= all);
    vec_expr(parts.as_slice())
}

/// A Rust expression for the executable IR of a compiled app.
pub open spec fn executable_ir_code(ir: ExecutableIr) -> Seq<char> {
    "ExecutableIr { state_slots: "@ + vec_code(ir.state_slots@.map_values(|x: ExecStateSlot| state_slot_code(x)))
        + ", source_handlers: "@ + vec_code(ir.source_handlers@.map_values(|x: ExecSourceHandler| source_handler_code(x)))
        + ", scene: "@ + option_code(opt_node_code(ir.scene)) + " }"@
}

/// A Rust expression for the executable IR of a compiled app.
pub fn executable_ir_expr(ir: &ExecutableIr) -> (r: String)
    ensures
        r@ == executable_ir_code(*ir),
{
    let slots = state_slots_expr(&ir.state_slots);
    let handlers = source_handlers_expr(&ir.source_handlers);
    let scene = option_node_expr(&ir.scene);
    let mut out: Vec<char> = Vec::new();
    push_str(&mut out, "ExecutableIr { state_slots: ");
    push_str(&mut out, slots.as_str());
    push_str(&mut out, ", source_handlers: ");
    push_str(&mut out, handlers.as_str());
    push_str(&mut out, ", scene: ");
    push_str(&mut out, scene.as_str());
    push_str(&mut out, " }");
    string_of(&out)
}


fn state_cells_expr(items: &Vec<IrStateCell>) -> (r: String)
    ensures
        r@ == vec_code(items@.map_values(|x: IrStateCell| state_cell_code(x))),
{
    let ghost all = items@.map_values(|x: IrStateCell| state_cell_code(x));
    let mut parts: Vec<String> = Vec::new();
    let mut i: usize = 0;
    while i < items.len()
        invariant
            i <= items@.len(),
            all == items@.map_values(|x: IrStateCell| state_cell_code(x)),
            codes_of(parts@) == all.take(i as int),
        decreases items.len() - i,
    {
        let item = ir_state_cell_expr(&items[i]);
        proof {
            lemma_codes_push(parts@, item);
            assert(all.take(i + 1) =~= all.take(i as int).push(item@));
        }
        parts.push(item);
        i += 1;
    }
    assert(all.take(all.len() as int) =~= all);
    vec_expr(parts.as_slice())
}

fn collection_states_expr(items: &Vec<IrCollectionState>) -> (r: String)
    ensures
        r@ == vec_code(items@.map_values(|x: IrCollectionState| collection_state_code(x))),
{
    let ghost all = items@.map_values(|x: IrCollectionState| collection_state_code(x));
    let mut parts: Vec<String> = Vec::new();
    let mut i: usize = 0;
    while i < items.len()
        invariant
            i <= items@.len(),
            all == items@.map_values(|x: IrCollectionState| collection_state_code(x)),
            codes_of(parts@) == all.take(i as int),
        decreases items.len() - i,
    {
        let item = ir_collection_state_expr(&items[i]);
        proof {
            lemma_codes_push(parts@, item);
            assert(all.take(i + 1) =~= all.take(i as int).push(item@));
        }
        parts.push(item);
        i += 1;
    }
    assert(all.take(all.len() as int) =~= all);
    vec_expr(parts.as_slice())
}

fn static_records_expr(items: &Vec<IrStaticRecord>) -> (r: String)
    ensures
        r@ == vec_code(items@.map_values(|x: IrStaticRecord| static_record_code(x))),
{
    let ghost all = items@.map_values(|x: IrStaticRecord| static_record_code(x));
    let mut parts: Vec<String> = Vec::new();
    let mut i: usize = 0;
    while i < items.len()
        invariant
            i <= items@.len(),
            all == items@.map_values(|x: IrStaticRecord| static_record_code(x)),
            codes_of(parts@) == all.take(i as int),
        decreases items.len() - i,
    {
        let item = ir_static_record_expr(&items[i]);
        proof {
            lemma_codes_push(parts@, item);
            assert(all.take(i + 1) =~= all.take(i as int).push(item@));
        }
        parts.push(item);
        i += 1;
    }
    assert(all.take(all.len() as int) =~= all);
    vec_expr(parts.as_slice())
}

fn event_handlers_expr(items: &Vec<IrEventHandler>) -> (r: String)
    ensures
        r@ == vec_code(items@.map_values(|x: IrEventHandler| event_handler_code(x))),
{
    let ghost all = items@.map_values(|x: IrEventHandler| event_handler_code(x));
    let mut parts: Vec<String> = Vec::new();
    let mut i: usize = 0;
    while i < items.len()
        invariant
            i <= items@.len(),
            all == items@.map_values(|x: IrEventHandler| event_handler_code(x)),
            codes_of(parts@) == all.take(i as int),
        decreases items.len() - i,
    {
        let item = ir_event_handler_expr(&items[i]);
        proof {
            lemma_codes_push(parts@, item);
            assert(all.take(i + 1) =~= all.take(i as int).push(item@));
        }
        parts.push(item);
        i += 1;
    }
    assert(all.take(all.len() as int) =~= all);
    vec_expr(parts.as_slice())
}

/// A Rust expression for the app IR of a compiled app.
pub open spec fn app_ir_code(ir: AppIr) -> Seq<char> {
    "AppIr { state_cells: "@ + vec_code(ir.state_cells@.map_values(|x: IrStateCell| state_cell_code(x)))
        + ", collection_states: "@ + vec_code(ir.collection_states@.map_values(|x: IrCollectionState| collection_state_code(x)))
        + ", static_records: "@ + vec_code(ir.static_records@.map_values(|x: IrStaticRecord| static_record_code(x)))
        + ", event_handlers: "@ + vec_code(ir.event_handlers@.map_values(|x: IrEventHandler| event_handler_code(x)))
        + ", render_tree: "@ + option_code(opt_node_code(ir.render_tree)) + " }"@
}

/// A Rust expression for the app IR of a compiled app.
pub fn app_ir_expr(ir: &AppIr) -> (r: String)
    ensures
        r@ == app_ir_code(*ir),
{
    let cells = state_cells_expr(&ir.state_cells);
    let lists = collection_states_expr(&ir.collection_states);
    let records = static_records_expr(&ir.static_records);
    let handlers = event_handlers_expr(&ir.event_handlers);
    let tree = option_node_expr(&ir.render_tree);
    let mut out: Vec<char> = Vec::new();
    push_str(&mut out, "AppIr { state_cells: ");
    push_str(&mut out, cells.as_str());
    push_str(&mut out, ", collection_states: ");
    push_str(&mut out, lists.as_str());
    push_str(&mut out, ", static_records: ");
    push_str(&mut out, records.as_str());
    push_str(&mut out, ", event_handlers: ");
    push_str(&mut out, handlers.as_str());
    push_str(&mut out, ", render_tree: ");
    push_str(&mut out, tree.as_str());
    push_str(&mut out, " }");
    string_of(&out)
}

} // verus!
