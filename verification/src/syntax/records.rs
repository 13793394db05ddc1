//! The indentation tree of `key: value` record lines.
use vstd::prelude::*;
use crate::syntax::{ParsedRecordEntry, Span};

verus! {

/// One `key: value` line with its indentation.
pub struct RecordLine {
    pub indent: usize,
    pub key: String,
    pub value: Option<String>,
    pub span: Span,
}

/// The keys and spans of a record forest in document order: each entry,
/// then its children.
pub open spec fn flat(es: Seq<ParsedRecordEntry>) -> Seq<(Seq<char>, Span)>
    decreases es,
{
    if es.len() == 0 {
        seq![]
    } else {
        let e = es[es.len() - 1];
        proof {
            assert(decreases_to!(es => es[es.len() - 1]));
        }
        flat(es.drop_last()) + seq![(e.key@, e.span)] + flat(e.children@)
    }
}

/// The keys and spans of record lines.
pub open spec fn line_model(ls: Seq<RecordLine>) -> Seq<(Seq<char>, Span)> {
    Seq::new(ls.len(), |i: int| (ls[i].key@, ls[i].span))
}

/// The text of an optional value.
pub open spec fn opt_text(v: Option<String>) -> Option<Seq<char>> {
    match v {
        Some(s) => Some(s@),
        None => None,
    }
}

/// The values of a record forest in the order of `flat`.
pub open spec fn flat_values(es: Seq<ParsedRecordEntry>) -> Seq<Option<Seq<char>>>
    decreases es,
{
    if es.len() == 0 {
        seq![]
    } else {
        let e = es[es.len() - 1];
        proof {
            assert(decreases_to!(es => es[es.len() - 1]));
        }
        flat_values(es.drop_last()) + seq![opt_text(e.value)] + flat_values(e.children@)
    }
}

/// The values of record lines.
pub open spec fn line_values(ls: Seq<RecordLine>) -> Seq<Option<Seq<char>>> {
    Seq::new(ls.len(), |i: int| opt_text(ls[i].value))
}

/// The indentations of record lines.
pub open spec fn line_indents(ls: Seq<RecordLine>) -> Seq<usize> {
    ls.map_values(|l: RecordLine| l.indent)
}

/// The forest `es`, whose first entry stands at line `from` of the lines
/// indented `ind`, is a level at indentation `level`: every entry stands
/// at a line of that indentation, the entries following each other in
/// document order.
pub open spec fn entries_at(es: Seq<ParsedRecordEntry>, ind: Seq<usize>, from: int, level: usize) -> bool
    decreases es, 0int,
{
    if es.len() == 0 {
        true
    } else {
        proof {
            assert(decreases_to!(es => es[es.len() - 1]));
        }
        entries_at(es.drop_last(), ind, from, level) && entry_at(es[es.len() - 1], ind, from + flat(es.drop_last()).len(), level)
    }
}

/// Entry `e` stands at line `pos`, indented `level`; its children, if
/// any, start at the next line, which is indented deeper, and form a level
/// at that line's indentation.
pub open spec fn entry_at(e: ParsedRecordEntry, ind: Seq<usize>, pos: int, level: usize) -> bool
    decreases e, 1int,
{
    &&& 0 <= pos < ind.len()
    &&& ind[pos] == level
    &&& e.children@.len() > 0 ==> {
        proof {
            assert(decreases_to!(e => e.children));
            assert(decreases_to!(e.children => e.children@));
        }
        pos + 1 < ind.len() && ind[pos + 1] > level && entries_at(e.children@, ind, pos + 1, ind[pos + 1])
    }
}

fn copy_value(v: &Option<String>) -> (r: Option<String>)
    ensures
        r is Some <==> v is Some,
        r matches Some(s) ==> s@ == v->0@,
{
    match v {
        Some(s) => Some(s.clone()),
        None => None,
    }
}

/// The entries of one indentation level, starting at `*idx`: lines of
/// exactly `level_indent` become siblings, deeper lines become their
/// children, and a shallower or unexpected deeper line ends the level.
/// The entries cover the consumed lines, in order.
pub fn parse_record_level(lines: &Vec<RecordLine>, idx: &mut usize, level_indent: usize) -> (r: Vec<
    ParsedRecordEntry,
>)
    requires
        *old(idx) <= lines@.len(),
    ensures
        *old(idx) <= *final(idx) <= lines@.len(),
        flat(r@) == line_model(lines@).subrange(*old(idx) as int, *final(idx) as int),
        flat_values(r@) == line_values(lines@).subrange(*old(idx) as int, *final(idx) as int),
        forall|j: int| *old(idx) <= j < *final(idx) ==> (#[trigger] lines@[j]).indent >= level_indent,
        *final(idx) < lines@.len() ==> lines@[*final(idx) as int].indent != level_indent,
        entries_at(r@, line_indents(lines@), *old(idx) as int, level_indent),
    decreases lines@.len() - *old(idx),
{
    let ghost start = *idx;
    let ghost lm = line_model(lines@);
    let ghost lv = line_values(lines@);
    let mut entries: Vec<ParsedRecordEntry> = Vec::new();
    assert(flat(entries@) =~= lm.subrange(start as int, start as int));
    assert(flat_values(entries@) =~= lv.subrange(start as int, start as int));
    while *idx < lines.len()
        invariant
            start <= *idx <= lines@.len(),
            start == *old(idx),
            lm == line_model(lines@),
            lv == line_values(lines@),
            flat(entries@) == lm.subrange(start as int, *idx as int),
            flat_values(entries@) == lv.subrange(start as int, *idx as int),
            forall|j: int| start <= j < *idx ==> (#[trigger] lines@[j]).indent >= level_indent,
            entries_at(entries@, line_indents(lines@), start as int, level_indent),
        ensures
            start <= *idx <= lines@.len(),
            flat(entries@) == lm.subrange(start as int, *idx as int),
            flat_values(entries@) == lv.subrange(start as int, *idx as int),
            forall|j: int| start <= j < *idx ==> (#[trigger] lines@[j]).indent >= level_indent,
            *idx < lines@.len() ==> lines@[*idx as int].indent != level_indent,
            entries_at(entries@, line_indents(lines@), start as int, level_indent),
        decreases lines@.len() - *idx,
    {
        let here = *idx;
        let line = &lines[here];
        if line.indent < level_indent {
            break;
        }
        if line.indent > level_indent {
            break;
        }
        *idx = here + 1;
        let children = if *idx < lines.len() && lines[*idx].indent > line.indent {
            let child_indent = lines[*idx].indent;
            parse_record_level(lines, idx, child_indent)
        } else {
            let empty: Vec<ParsedRecordEntry> = Vec::new();
            assert(flat(empty@) =~= lm.subrange(here + 1, here + 1));
            assert(flat_values(empty@) =~= lv.subrange(here + 1, here + 1));
            empty
        };
        let e = ParsedRecordEntry {
            key: line.key.clone(),
            value: copy_value(&line.value),
            span: line.span,
            children,
        };
        let ghost before = entries@;
        entries.push(e);
        proof {
            assert(entries@.drop_last() =~= before);
            assert(flat(entries@) == flat(before) + seq![(e.key@, e.span)] + flat(e.children@));
            assert(lm[here as int] == (lines@[here as int].key@, lines@[here as int].span));
            assert(flat(entries@) =~= lm.subrange(start as int, *idx as int));
            assert(flat_values(entries@) == flat_values(before) + seq![opt_text(e.value)] + flat_values(e.children@));
            assert(lv[here as int] == opt_text(lines@[here as int].value));
            assert(flat_values(entries@) =~= lv.subrange(start as int, *idx as int));
            assert(flat(before).len() == here - start);
            assert(line_indents(lines@)[here as int] == level_indent);
            assert(entry_at(e, line_indents(lines@), here as int, level_indent));
            assert(entries_at(entries@, line_indents(lines@), start as int, level_indent));
        }
    }
    entries
}

/// The record forest of the record lines: the top level is indentation
/// zero, and the forest covers a prefix of the lines, in order.
pub fn parse_record_tree(lines: &Vec<RecordLine>) -> (r: Vec<ParsedRecordEntry>)
    ensures
        flat(r@).len() <= lines@.len(),
        flat(r@) == line_model(lines@).take(flat(r@).len() as int),
        flat_values(r@) == line_values(lines@).take(flat(r@).len() as int),
        flat(r@).len() < lines@.len() ==> lines@[flat(r@).len() as int].indent > 0,
        entries_at(r@, line_indents(lines@), 0, 0),
{
    let mut idx: usize = 0;
    let r = parse_record_level(lines, &mut idx, 0);
    assert(line_model(lines@).subrange(0, idx as int) =~= line_model(lines@).take(idx as int));
    assert(line_values(lines@).subrange(0, idx as int) =~= line_values(lines@).take(idx as int));
    r
}

} // verus!
