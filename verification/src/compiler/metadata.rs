//! The app metadata of a compiled module: its title, the label of its
//! primary action, and whether it asks for the physical debug view.
use vstd::prelude::*;
use crate::syntax::{ParsedModule, ParsedRecordEntry, TextLiteral};
use crate::text::{chars_of, chars_of_string, str_eq, string_of, trim};
use super::IrAppMetadata;
use super::infer::{child_index, child_record};

verus! {

/// The position of the first top-level record with key `key`.
pub open spec fn top_index(parsed: ParsedModule, key: Seq<char>) -> Option<int> {
    if exists|i: int| 0 <= i < parsed.records@.len() && (#[trigger] parsed.records@[i]).key@ == key {
        Some(choose|i: int| 0 <= i < parsed.records@.len() && (#[trigger] parsed.records@[i]).key@ == key
            && forall|j: int| 0 <= j < i ==> parsed.records@[j].key@ != key)
    } else {
        None
    }
}

/// The first top-level record with key `key`.
pub fn top_record<'a>(parsed: &'a ParsedModule, key: &str) -> (r: Option<&'a ParsedRecordEntry>)
    ensures
        match top_index(*parsed, key@) {
            Some(i) => r == Some(&parsed.records@[i]),
            None => r is None,
        },
{
    let mut i: usize = 0;
    while i < parsed.records.len()
        invariant
            i <= parsed.records@.len(),
            forall|j: int| 0 <= j < i ==> (#[trigger] parsed.records@[j]).key@ != key@,
        decreases parsed.records.len() - i,
    {
        if str_eq(&parsed.records[i].key, key) {
            proof {
                let w = choose|w: int| 0 <= w < parsed.records@.len() && (#[trigger] parsed.records@[w]).key@ == key@
                    && forall|j: int| 0 <= j < w ==> parsed.records@[j].key@ != key@;
                assert(w == i) by {
                    if w < i {
                        assert(parsed.records@[w].key@ != key@);
                    }
                    if w > i {
                        assert(parsed.records@[i as int].key@ != key@);
                    }
                }
            }
            return Some(&parsed.records[i]);
        }
        i = i + 1;
    }
    None
}

/// The position of the first text literal on line `line`.
pub open spec fn literal_index(lits: Seq<TextLiteral>, line: int) -> Option<int> {
    if exists|i: int| 0 <= i < lits.len() && (#[trigger] lits[i]).span.line == line {
        Some(choose|i: int| 0 <= i < lits.len() && (#[trigger] lits[i]).span.line == line
            && forall|j: int| 0 <= j < i ==> lits[j].span.line != line)
    } else {
        None
    }
}

/// The first text literal on a line.
pub open spec fn literal_on_line(parsed: ParsedModule, line: int) -> Option<Seq<char>> {
    match literal_index(parsed.text_literals@, line) {
        Some(i) => Some(parsed.text_literals@[i].value@),
        None => None,
    }
}

/// The value of the first text literal on a line.
pub fn text_literal_on_line(parsed: &ParsedModule, line: usize) -> (r: Option<String>)
    ensures
        match literal_on_line(*parsed, line as int) {
            Some(v) => r matches Some(s) && s@ == v,
            None => r is None,
        },
{
    let mut i: usize = 0;
    while i < parsed.text_literals.len()
        invariant
            i <= parsed.text_literals@.len(),
            forall|j: int| 0 <= j < i ==> (#[trigger] parsed.text_literals@[j]).span.line != line,
        decreases parsed.text_literals.len() - i,
    {
        if parsed.text_literals[i].span.line == line {
            proof {
                let w = choose|w: int| 0 <= w < parsed.text_literals@.len() && (#[trigger] parsed.text_literals@[w]).span.line == line
                    && forall|j: int| 0 <= j < w ==> parsed.text_literals@[j].span.line != line;
                assert(w == i) by {
                    if w < i {
                        assert(parsed.text_literals@[w].span.line != line);
                    }
                    if w > i {
                        assert(parsed.text_literals@[i as int].span.line != line);
                    }
                }
            }
            return Some(string_of(&chars_of_string(&parsed.text_literals[i].value)));
        }
        i = i + 1;
    }
    None
}

/// The text written on the line of the first child `field` of any
/// top-level record.
pub open spec fn first_child_text_spec(parsed: ParsedModule, field: Seq<char>) -> Option<Seq<char>> {
    if exists|i: int| 0 <= i < parsed.records@.len() && child_index(#[trigger] parsed.records@[i], field) is Some {
        let i = choose|i: int| 0 <= i < parsed.records@.len() && child_index(#[trigger] parsed.records@[i], field) is Some
            && forall|j: int| 0 <= j < i ==> child_index(parsed.records@[j], field) is None;
        let r = parsed.records@[i];
        literal_on_line(parsed, r.children@[child_index(r, field)->0].span.line as int)
    } else {
        None
    }
}

/// The text on the line of the first child `field` of any top-level record.
pub fn first_child_text(parsed: &ParsedModule, field: &str) -> (r: Option<String>)
    ensures
        match first_child_text_spec(*parsed, field@) {
            Some(v) => r matches Some(s) && s@ == v,
            None => r is None,
        },
{
    let mut i: usize = 0;
    while i < parsed.records.len()
        invariant
            i <= parsed.records@.len(),
            forall|j: int| 0 <= j < i ==> child_index(#[trigger] parsed.records@[j], field@) is None,
        decreases parsed.records.len() - i,
    {
        match child_record(&parsed.records[i], field) {
            Some(child) => {
                proof {
                    let w = choose|w: int| 0 <= w < parsed.records@.len() && child_index(#[trigger] parsed.records@[w], field@) is Some
                        && forall|j: int| 0 <= j < w ==> child_index(parsed.records@[j], field@) is None;
                    assert(w == i) by {
                        if w < i {
                            assert(child_index(parsed.records@[w], field@) is None);
                        }
                        if w > i {
                            assert(child_index(parsed.records@[i as int], field@) is None);
                        }
                    }
                }
                return text_literal_on_line(parsed, child.span.line);
            },
            None => {},
        }
        i = i + 1;
    }
    None
}

/// The label of a module's primary action: the text on the line of
/// `view.action.label`.
pub open spec fn button_label(parsed: ParsedModule) -> Option<Seq<char>> {
    match top_index(parsed, "view"@) {
        Some(v) => {
            let view = parsed.records@[v];
            match child_index(view, "action"@) {
                Some(a) => {
                    let action = view.children@[a];
                    match child_index(action, "label"@) {
                        Some(l) => literal_on_line(parsed, action.children@[l].span.line as int),
                        None => None,
                    }
                },
                None => None,
            }
        },
        None => None,
    }
}

/// The label of the module's primary action.
pub fn scalar_button_label(parsed: &ParsedModule) -> (r: Option<String>)
    ensures
        match button_label(*parsed) {
            Some(v) => r matches Some(s) && s@ == v,
            None => r is None,
        },
{
    let view = match top_record(parsed, "view") {
        Some(v) => v,
        None => return None,
    };
    let action = match child_record(view, "action") {
        Some(a) => a,
        None => return None,
    };
    match child_record(action, "label") {
        Some(label) => text_literal_on_line(parsed, label.span.line),
        None => None,
    }
}

/// The flag `view.<field>` when it is written `True` or `False`.
pub open spec fn view_flag(parsed: ParsedModule, field: Seq<char>) -> Option<bool> {
    match top_index(parsed, "view"@) {
        Some(v) => {
            let view = parsed.records@[v];
            match child_index(view, field) {
                Some(c) => match view.children@[c].value {
                    Some(text) => if trim(text@) == "True"@ {
                        Some(true)
                    } else if trim(text@) == "False"@ {
                        Some(false)
                    } else {
                        None
                    },
                    None => None,
                },
                None => None,
            }
        },
        None => None,
    }
}

/// The flag `view.<field>`.
pub fn record_bool(record: Option<&ParsedRecordEntry>, field: &str) -> (r: Option<bool>)
    ensures
        match record {
            Some(rec) => match child_index(*rec, field@) {
                Some(c) => match rec.children@[c].value {
                    Some(text) => r == (if trim(text@) == "True"@ {
                        Some(true)
                    } else if trim(text@) == "False"@ {
                        Some(false)
                    } else {
                        None::<bool>
                    }),
                    None => r is None,
                },
                None => r is None,
            },
            None => r is None,
        },
{
    let rec = match record {
        Some(r) => r,
        None => return None,
    };
    let child = match child_record(rec, field) {
        Some(c) => c,
        None => return None,
    };
    match &child.value {
        Some(text) => {
            let v = chars_of_string(text);
            let t = crate::text::trimmed(&v, 0, v.len());
            assert(v@.subrange(0, v@.len() as int) =~= v@);
            if crate::syntax::expr::is_lit(&t, "True") {
                Some(true)
            } else if crate::syntax::expr::is_lit(&t, "False") {
                Some(false)
            } else {
                None
            }
        },
        None => None,
    }
}

/// A module name with its underscores shown as spaces.
pub open spec fn spaced_name(name: Seq<char>) -> Seq<char> {
    Seq::new(name.len(), |i: int| if name[i] == '_' { ' ' } else { name[i] })
}

fn spaced(name: &str) -> (r: String)
    ensures
        r@ == spaced_name(name@),
{
    let v = chars_of(name);
    let mut out: Vec<char> = Vec::new();
    let mut i: usize = 0;
    while i < v.len()
        invariant
            i <= v@.len(),
            v@ == name@,
            out@ == spaced_name(name@).take(i as int),
        decreases v.len() - i,
    {
        let c = if v[i] == '_' { ' ' } else { v[i] };
        out.push(c);
        assert(out@ =~= spaced_name(name@).take(i + 1));
        i = i + 1;
    }
    assert(spaced_name(name@).take(v@.len() as int) =~= spaced_name(name@));
    string_of(&out)
}

/// The app metadata of a module: the title written under some record's
/// `title` (else the module name with spaces for underscores), the primary
/// action's label, and the `view.physical_debug` flag (off unless written
/// `True`).
/// The program metadata of module `name`: its title, the label of its
/// primary button, and whether its view asks for physical debugging.
pub open spec fn metadata_result(r: IrAppMetadata, name: Seq<char>, parsed: ParsedModule) -> bool {
    &&& r.title@ == match first_child_text_spec(parsed, "title"@) {
        Some(t) => t,
        None => spaced_name(name),
    }
    &&& match button_label(parsed) {
        Some(v) => r.primary_label matches Some(s) && s@ == v,
        None => r.primary_label is None,
    }
    &&& r.physical_debug == (view_flag(parsed, "physical_debug"@) == Some(true))
}

pub fn app_metadata(name: &str, parsed: &ParsedModule) -> (r: IrAppMetadata)
    ensures
        r.title@ == match first_child_text_spec(*parsed, "title"@) {
            Some(t) => t,
            None => spaced_name(name@),
        },
        match button_label(*parsed) {
            Some(v) => r.primary_label matches Some(s) && s@ == v,
            None => r.primary_label is None,
        },
        r.physical_debug == (view_flag(*parsed, "physical_debug"@) == Some(true)),
{
    let title = match first_child_text(parsed, "title") {
        Some(t) => t,
        None => spaced(name),
    };
    let primary_label = scalar_button_label(parsed);
    let view = top_record(parsed, "view");
    let physical_debug = match record_bool(view, "physical_debug") {
        Some(b) => b,
        None => false,
    };
    IrAppMetadata { title, primary_label, physical_debug }
}

} // verus!
