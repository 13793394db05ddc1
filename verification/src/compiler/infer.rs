//! What the compiler infers from the shape of a parsed module: which
//! top-level record holds a dynamic sequence of items, and which one a
//! grid's cells come from.
use vstd::prelude::*;
use crate::syntax::{ModuleCall, ParsedModule, ParsedRecordEntry};
use crate::syntax::expr::is_lit;
use crate::text::{chars_of_string, str_eq, string_of};

verus! {

/// Some module call has exactly this path.
pub open spec fn called(calls: Seq<ModuleCall>, path: Seq<char>) -> bool {
    exists|i: int| 0 <= i < calls.len() && (#[trigger] calls[i]).path@ == path
}

/// Whether the module calls `path` anywhere.
pub fn module_called(parsed: &ParsedModule, path: &str) -> (r: bool)
    ensures
        r == called(parsed.module_calls@, path@),
{
    let mut i: usize = 0;
    while i < parsed.module_calls.len()
        invariant
            i <= parsed.module_calls@.len(),
            forall|j: int| 0 <= j < i ==> (#[trigger] parsed.module_calls@[j]).path@ != path@,
        decreases parsed.module_calls.len() - i,
    {
        if str_eq(&parsed.module_calls[i].path, path) {
            return true;
        }
        i = i + 1;
    }
    false
}

/// The line where the top-level record after the one at `line` starts: the
/// smallest start line of a top-level record below it.
pub open spec fn next_record_line(records: Seq<ParsedRecordEntry>, line: int) -> Option<int> {
    if exists|i: int| 0 <= i < records.len() && (#[trigger] records[i]).span.line > line {
        let k = choose|k: int|
            0 <= k < records.len() && (#[trigger] records[k]).span.line > line && forall|j: int|
                0 <= j < records.len() && (#[trigger] records[j]).span.line > line ==> records[k].span.line <= records[j].span.line;
        Some(records[k].span.line as int)
    } else {
        None
    }
}

/// Line `line` lies within the top-level record `record`: at or after its
/// first line, before the next top-level record.
pub open spec fn within_record(records: Seq<ParsedRecordEntry>, line: int, record: ParsedRecordEntry) -> bool {
    line >= record.span.line && match next_record_line(records, record.span.line as int) {
        Some(end) => line < end,
        None => line < usize::MAX,
    }
}

/// The end line of a top-level record, as `next_record_line` gives it.
pub fn top_record_end_line(parsed: &ParsedModule, record: &ParsedRecordEntry) -> (r: Option<usize>)
    ensures
        match next_record_line(parsed.records@, record.span.line as int) {
            Some(m) => r == Some(m as usize),
            None => r is None,
        },
{
    let line = record.span.line;
    let mut best: Option<usize> = None;
    let mut i: usize = 0;
    while i < parsed.records.len()
        invariant
            i <= parsed.records@.len(),
            line == record.span.line,
            match best {
                Some(m) => m > line && (exists|k: int| 0 <= k < i && (#[trigger] parsed.records@[k]).span.line == m)
                    && forall|j: int| 0 <= j < i && (#[trigger] parsed.records@[j]).span.line > line ==> m <= parsed.records@[j].span.line,
                None => forall|j: int| 0 <= j < i ==> (#[trigger] parsed.records@[j]).span.line <= line,
            },
        decreases parsed.records.len() - i,
    {
        let l = parsed.records[i].span.line;
        if l > line {
            match best {
                Some(m) => {
                    if l < m {
                        best = Some(l);
                    }
                },
                None => {
                    best = Some(l);
                },
            }
        }
        i = i + 1;
    }
    proof {
        match best {
            Some(m) => {
                let k = choose|k: int| 0 <= k < parsed.records@.len() && (#[trigger] parsed.records@[k]).span.line == m;
                assert(parsed.records@[k].span.line > line);
                assert(0 <= k < parsed.records@.len() && parsed.records@[k].span.line > line && forall|j: int|
                    0 <= j < parsed.records@.len() && (#[trigger] parsed.records@[j]).span.line > line ==> parsed.records@[k].span.line <= parsed.records@[j].span.line);
                let w = choose|w: int|
                    0 <= w < parsed.records@.len() && (#[trigger] parsed.records@[w]).span.line > line && forall|j: int|
                        0 <= j < parsed.records@.len() && (#[trigger] parsed.records@[j]).span.line > line ==> parsed.records@[w].span.line <= parsed.records@[j].span.line;
                assert(m <= parsed.records@[w].span.line);
                assert(parsed.records@[w].span.line <= parsed.records@[k].span.line);
            },
            None => {},
        }
    }
    best
}

/// Whether line `line` lies within the top-level record `record`.
pub fn span_under_record(parsed: &ParsedModule, line: usize, record: &ParsedRecordEntry) -> (r: bool)
    ensures
        r == within_record(parsed.records@, line as int, *record),
{
    let start = record.span.line;
    let end = match top_record_end_line(parsed, record) {
        Some(e) => e,
        None => usize::MAX,
    };
    line >= start && line < end
}

/// Some call of `path` lies within the top-level record `record`.
pub open spec fn called_under(parsed: ParsedModule, record: ParsedRecordEntry, path: Seq<char>) -> bool {
    exists|i: int|
        0 <= i < parsed.module_calls@.len() && (#[trigger] parsed.module_calls@[i]).path@ == path
            && within_record(parsed.records@, parsed.module_calls@[i].span.line as int, record)
}

/// Whether some call of `path` lies within the top-level record `record`.
pub fn module_called_under_record(parsed: &ParsedModule, record: &ParsedRecordEntry, path: &str) -> (r: bool)
    ensures
        r == called_under(*parsed, *record, path@),
{
    let mut i: usize = 0;
    while i < parsed.module_calls.len()
        invariant
            i <= parsed.module_calls@.len(),
            forall|j: int| 0 <= j < i ==> !((#[trigger] parsed.module_calls@[j]).path@ == path@
                && within_record(parsed.records@, parsed.module_calls@[j].span.line as int, *record)),
        decreases parsed.module_calls.len() - i,
    {
        let call = &parsed.module_calls[i];
        if str_eq(&call.path, path) && span_under_record(parsed, call.span.line, record) {
            return true;
        }
        i = i + 1;
    }
    false
}

/// The top-level record that holds a dynamic sequence: the first one other
/// than `store` under which `List/append` is called.
pub open spec fn sequence_root(parsed: ParsedModule) -> Option<int> {
    if exists|i: int| 0 <= i < parsed.records@.len() && #[trigger] sequence_candidate(parsed, i) {
        Some(choose|i: int| 0 <= i < parsed.records@.len() && #[trigger] sequence_candidate(parsed, i)
            && forall|j: int| 0 <= j < i ==> !sequence_candidate(parsed, j))
    } else {
        None
    }
}

pub open spec fn sequence_candidate(parsed: ParsedModule, i: int) -> bool {
    parsed.records@[i].key@ != "store"@ && called_under(parsed, parsed.records@[i], "List/append"@)
}

/// The key of the top-level record that holds a dynamic sequence.
pub fn infer_dynamic_sequence_root(parsed: &ParsedModule) -> (r: Option<String>)
    ensures
        match sequence_root(*parsed) {
            Some(i) => r matches Some(k) && k@ == parsed.records@[i].key@,
            None => r is None,
        },
{
    let has_append = module_called(parsed, "List/append");
    let mut i: usize = 0;
    while i < parsed.records.len()
        invariant
            i <= parsed.records@.len(),
            has_append == called(parsed.module_calls@, "List/append"@),
            forall|j: int| 0 <= j < i ==> !#[trigger] sequence_candidate(*parsed, j),
        decreases parsed.records.len() - i,
    {
        let record = &parsed.records[i];
        if has_append && !str_eq(&record.key, "store") && module_called_under_record(parsed, record, "List/append") {
            proof {
                assert(sequence_candidate(*parsed, i as int));
                let w = choose|w: int| 0 <= w < parsed.records@.len() && #[trigger] sequence_candidate(*parsed, w)
                    && forall|j: int| 0 <= j < w ==> !sequence_candidate(*parsed, j);
                assert(w == i) by {
                    if w < i {
                        assert(!sequence_candidate(*parsed, w));
                    }
                    if w > i {
                        assert(!sequence_candidate(*parsed, i as int));
                    }
                }
            }
            return Some(string_of(&chars_of_string(&record.key)));
        }
        proof {
            if sequence_candidate(*parsed, i as int) {
                let k = choose|k: int| 0 <= k < parsed.module_calls@.len() && (#[trigger] parsed.module_calls@[k]).path@ == "List/append"@
                    && within_record(parsed.records@, parsed.module_calls@[k].span.line as int, parsed.records@[i as int]);
                assert(called(parsed.module_calls@, "List/append"@));
            }
        }
        i = i + 1;
    }
    None
}

/// The position of the first child of `record` with key `key`.
pub open spec fn child_index(record: ParsedRecordEntry, key: Seq<char>) -> Option<int> {
    if exists|i: int| 0 <= i < record.children@.len() && (#[trigger] record.children@[i]).key@ == key {
        Some(choose|i: int| 0 <= i < record.children@.len() && (#[trigger] record.children@[i]).key@ == key
            && forall|j: int| 0 <= j < i ==> record.children@[j].key@ != key)
    } else {
        None
    }
}

/// The first child of `record` with key `key`.
pub fn child_record<'a>(record: &'a ParsedRecordEntry, key: &str) -> (r: Option<&'a ParsedRecordEntry>)
    ensures
        match child_index(*record, key@) {
            Some(i) => r == Some(&record.children@[i]),
            None => r is None,
        },
{
    let mut i: usize = 0;
    while i < record.children.len()
        invariant
            i <= record.children@.len(),
            forall|j: int| 0 <= j < i ==> (#[trigger] record.children@[j]).key@ != key@,
        decreases record.children.len() - i,
    {
        if str_eq(&record.children[i].key, key) {
            proof {
                let w = choose|w: int| 0 <= w < record.children@.len() && (#[trigger] record.children@[w]).key@ == key@
                    && forall|j: int| 0 <= j < w ==> record.children@[j].key@ != key@;
                assert(w == i) by {
                    if w < i {
                        assert(record.children@[w].key@ != key@);
                    }
                    if w > i {
                        assert(record.children@[i as int].key@ != key@);
                    }
                }
            }
            return Some(&record.children[i]);
        }
        i = i + 1;
    }
    None
}

/// The top-level record that a grid's cells come from: where the module
/// calls `Element/grid`, the first one other than `store` with a `sources`
/// child.
pub open spec fn dense_root(parsed: ParsedModule) -> Option<int> {
    if called(parsed.module_calls@, "Element/grid"@) && exists|i: int|
        0 <= i < parsed.records@.len() && #[trigger] dense_candidate(parsed, i) {
        Some(choose|i: int| 0 <= i < parsed.records@.len() && #[trigger] dense_candidate(parsed, i)
            && forall|j: int| 0 <= j < i ==> !dense_candidate(parsed, j))
    } else {
        None
    }
}

pub open spec fn dense_candidate(parsed: ParsedModule, i: int) -> bool {
    parsed.records@[i].key@ != "store"@ && child_index(parsed.records@[i], "sources"@) is Some
}

/// The key of the top-level record that a grid's cells come from.
pub fn infer_dense_source_root(parsed: &ParsedModule) -> (r: Option<String>)
    ensures
        match dense_root(*parsed) {
            Some(i) => r matches Some(k) && k@ == parsed.records@[i].key@,
            None => r is None,
        },
{
    if !module_called(parsed, "Element/grid") {
        return None;
    }
    let mut i: usize = 0;
    while i < parsed.records.len()
        invariant
            i <= parsed.records@.len(),
            called(parsed.module_calls@, "Element/grid"@),
            forall|j: int| 0 <= j < i ==> !#[trigger] dense_candidate(*parsed, j),
        decreases parsed.records.len() - i,
    {
        let record = &parsed.records[i];
        if !str_eq(&record.key, "store") && child_record(record, "sources").is_some() {
            proof {
                assert(dense_candidate(*parsed, i as int));
                let w = choose|w: int| 0 <= w < parsed.records@.len() && #[trigger] dense_candidate(*parsed, w)
                    && forall|j: int| 0 <= j < w ==> !dense_candidate(*parsed, j);
                assert(w == i) by {
                    if w < i {
                        assert(!dense_candidate(*parsed, w));
                    }
                    if w > i {
                        assert(!dense_candidate(*parsed, i as int));
                    }
                }
            }
            return Some(string_of(&chars_of_string(&record.key)));
        }
        i = i + 1;
    }
    None
}

} // verus!
