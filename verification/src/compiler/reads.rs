//! The source paths that a module reads, and the check that each of them is
//! produced: a module may read `store.sources.*` only where some `SOURCE`
//! leaf of its inventory stands at or below the path read.
use vstd::prelude::*;
use crate::hir::{
    HirBinding, HirCallArg, HirExpr, HirExprKind, HirItem, HirModule, HirRecord, HirWhenArm,
};
use crate::source::{SourceEntry, SourceInventory};
use crate::text::{chars_of, chars_of_string, has_prefix, push_str, string_of};

verus! {

/// The characters of each string.
pub open spec fn views(v: Seq<String>) -> Seq<Seq<char>> {
    Seq::new(v.len(), |i: int| v[i]@)
}

pub proof fn lemma_views_push(v: Seq<String>, s: String)
    ensures
        views(v.push(s)) == views(v).push(s@),
{
    assert(views(v.push(s)) =~= views(v).push(s@));
}

/// A read of a store source: a path that starts with `store.sources.`.
pub open spec fn store_read(e: HirExpr) -> Seq<Seq<char>> {
    match e.kind {
        HirExprKind::Path { value } => if has_prefix(value@, "store.sources."@) {
            seq![value@]
        } else {
            Seq::empty()
        },
        _ => Seq::empty(),
    }
}

/// The store sources that an expression reads, in the order they are met.
pub open spec fn expr_reads(e: HirExpr) -> Seq<Seq<char>>
    decreases e, 1int,
{
    store_read(e) + match e.kind {
        HirExprKind::Record { entries } => records_reads(entries@),
        HirExprKind::List { items } => exprs_reads(items@),
        HirExprKind::Latest { branches } => exprs_reads(branches@),
        HirExprKind::Block { bindings } => bindings_reads(bindings@),
        HirExprKind::When { arms } => arms_reads(arms@),
        HirExprKind::While { arms } => arms_reads(arms@),
        HirExprKind::Then { body } => expr_reads(*body),
        HirExprKind::Hold { body, .. } => expr_reads(*body),
        HirExprKind::HostCall { args, .. } => args_reads(args@),
        HirExprKind::ListCall { args, .. } => args_reads(args@),
        HirExprKind::FunctionCall { args, .. } => args_reads(args@),
        HirExprKind::Pipeline { input, stages } => expr_reads(*input) + exprs_reads(stages@),
        HirExprKind::Binary { left, right, .. } => expr_reads(*left) + expr_reads(*right),
        _ => Seq::empty(),
    }
}

pub open spec fn exprs_reads(s: Seq<HirExpr>) -> Seq<Seq<char>>
    decreases s, 0int,
{
    if s.len() == 0 {
        Seq::empty()
    } else {
        proof {
            assert(decreases_to!(s => s[s.len() - 1]));
        }
        exprs_reads(s.drop_last()) + expr_reads(s[s.len() - 1])
    }
}

pub open spec fn record_reads(r: HirRecord) -> Seq<Seq<char>>
    decreases r, 1int,
{
    (match r.value {
        Some(v) => expr_reads(v),
        None => Seq::empty(),
    }) + records_reads(r.children@)
}

pub open spec fn records_reads(s: Seq<HirRecord>) -> Seq<Seq<char>>
    decreases s, 0int,
{
    if s.len() == 0 {
        Seq::empty()
    } else {
        proof {
            assert(decreases_to!(s => s[s.len() - 1]));
        }
        records_reads(s.drop_last()) + record_reads(s[s.len() - 1])
    }
}

pub open spec fn bindings_reads(s: Seq<HirBinding>) -> Seq<Seq<char>>
    decreases s, 0int,
{
    if s.len() == 0 {
        Seq::empty()
    } else {
        proof {
            assert(decreases_to!(s => s[s.len() - 1]));
        }
        bindings_reads(s.drop_last()) + expr_reads(s[s.len() - 1].value)
    }
}

pub open spec fn arms_reads(s: Seq<HirWhenArm>) -> Seq<Seq<char>>
    decreases s, 0int,
{
    if s.len() == 0 {
        Seq::empty()
    } else {
        proof {
            assert(decreases_to!(s => s[s.len() - 1]));
        }
        arms_reads(s.drop_last()) + expr_reads(s[s.len() - 1].value)
    }
}

pub open spec fn args_reads(s: Seq<HirCallArg>) -> Seq<Seq<char>>
    decreases s, 0int,
{
    if s.len() == 0 {
        Seq::empty()
    } else {
        proof {
            assert(decreases_to!(s => s[s.len() - 1]));
        }
        args_reads(s.drop_last()) + expr_reads(s[s.len() - 1].value)
    }
}

pub open spec fn item_reads(item: HirItem) -> Seq<Seq<char>> {
    match item {
        HirItem::Record(r) => record_reads(r),
        HirItem::Function(f) => expr_reads(f.body),
        HirItem::Expression(e) => expr_reads(e),
    }
}

pub open spec fn items_reads(s: Seq<HirItem>) -> Seq<Seq<char>>
    decreases s.len(),
{
    if s.len() == 0 {
        Seq::empty()
    } else {
        items_reads(s.drop_last()) + item_reads(s[s.len() - 1])
    }
}

/// The store sources that a module reads, in the order they are met.
pub open spec fn module_reads(hir: HirModule) -> Seq<Seq<char>> {
    items_reads(hir.items@)
}

/// Appends the store sources that `e` reads.
pub fn collect_reads_expr(e: &HirExpr, out: &mut Vec<String>)
    ensures
        views(final(out)@) == views(old(out)@) + expr_reads(*e),
    decreases e, 2int,
{
    let ghost o0 = views(out@);
    match &e.kind {
        HirExprKind::Path { value } => {
            let v = chars_of_string(value);
            if super::paths::starts_with_str(&v, "store.sources.") {
                let ghost before = out@;
                let s = string_of(&v);
                let ghost gs = s;
                out.push(s);
                proof {
                    lemma_views_push(before, gs);
                }
            }
        },
        _ => {},
    }
    let ghost o1 = views(out@);
    assert(o1 == o0 + store_read(*e));
    match &e.kind {
        HirExprKind::Record { entries } => collect_reads_records(entries, out),
        HirExprKind::List { items } => collect_reads_exprs(items, out),
        HirExprKind::Latest { branches } => collect_reads_exprs(branches, out),
        HirExprKind::Block { bindings } => collect_reads_bindings(bindings, out),
        HirExprKind::When { arms } => collect_reads_arms(arms, out),
        HirExprKind::While { arms } => collect_reads_arms(arms, out),
        HirExprKind::Then { body } => collect_reads_expr(body, out),
        HirExprKind::Hold { body, .. } => collect_reads_expr(body, out),
        HirExprKind::HostCall { args, .. } => collect_reads_args(args, out),
        HirExprKind::ListCall { args, .. } => collect_reads_args(args, out),
        HirExprKind::FunctionCall { args, .. } => collect_reads_args(args, out),
        HirExprKind::Pipeline { input, stages } => {
            collect_reads_expr(input, out);
            collect_reads_exprs(stages, out);
        },
        HirExprKind::Binary { left, right, .. } => {
            collect_reads_expr(left, out);
            collect_reads_expr(right, out);
        },
        _ => {},
    }
}

pub fn collect_reads_exprs(items: &Vec<HirExpr>, out: &mut Vec<String>)
    ensures
        views(final(out)@) == views(old(out)@) + exprs_reads(items@),
    decreases items@, 1int,
{
    let ghost o0 = views(out@);
    let mut i: usize = 0;
    assert(items@.take(0) =~= Seq::<HirExpr>::empty());
    while i < items.len()
        invariant
            i <= items@.len(),
            views(out@) == o0 + exprs_reads(items@.take(i as int)),
        decreases items.len() - i,
    {
        proof {
            assert(decreases_to!(items@ => items@[i as int]));
        }
        collect_reads_expr(&items[i], out);
        proof {
            let t = items@.take(i + 1);
            assert(t.drop_last() =~= items@.take(i as int));
        }
        i = i + 1;
    }
    assert(items@.take(items@.len() as int) =~= items@);
}

pub fn collect_reads_bindings(bindings: &Vec<HirBinding>, out: &mut Vec<String>)
    ensures
        views(final(out)@) == views(old(out)@) + bindings_reads(bindings@),
    decreases bindings@, 1int,
{
    let ghost o0 = views(out@);
    let mut i: usize = 0;
    assert(bindings@.take(0) =~= Seq::<HirBinding>::empty());
    while i < bindings.len()
        invariant
            i <= bindings@.len(),
            views(out@) == o0 + bindings_reads(bindings@.take(i as int)),
        decreases bindings.len() - i,
    {
        proof {
            assert(decreases_to!(bindings@ => bindings@[i as int]));
        }
        collect_reads_expr(&bindings[i].value, out);
        proof {
            let t = bindings@.take(i + 1);
            assert(t.drop_last() =~= bindings@.take(i as int));
        }
        i = i + 1;
    }
    assert(bindings@.take(bindings@.len() as int) =~= bindings@);
}

pub fn collect_reads_arms(arms: &Vec<HirWhenArm>, out: &mut Vec<String>)
    ensures
        views(final(out)@) == views(old(out)@) + arms_reads(arms@),
    decreases arms@, 1int,
{
    let ghost o0 = views(out@);
    let mut i: usize = 0;
    assert(arms@.take(0) =~= Seq::<HirWhenArm>::empty());
    while i < arms.len()
        invariant
            i <= arms@.len(),
            views(out@) == o0 + arms_reads(arms@.take(i as int)),
        decreases arms.len() - i,
    {
        proof {
            assert(decreases_to!(arms@ => arms@[i as int]));
        }
        collect_reads_expr(&arms[i].value, out);
        proof {
            let t = arms@.take(i + 1);
            assert(t.drop_last() =~= arms@.take(i as int));
        }
        i = i + 1;
    }
    assert(arms@.take(arms@.len() as int) =~= arms@);
}

pub fn collect_reads_args(args: &Vec<HirCallArg>, out: &mut Vec<String>)
    ensures
        views(final(out)@) == views(old(out)@) + args_reads(args@),
    decreases args@, 1int,
{
    let ghost o0 = views(out@);
    let mut i: usize = 0;
    assert(args@.take(0) =~= Seq::<HirCallArg>::empty());
    while i < args.len()
        invariant
            i <= args@.len(),
            views(out@) == o0 + args_reads(args@.take(i as int)),
        decreases args.len() - i,
    {
        proof {
            assert(decreases_to!(args@ => args@[i as int]));
        }
        collect_reads_expr(&args[i].value, out);
        proof {
            let t = args@.take(i + 1);
            assert(t.drop_last() =~= args@.take(i as int));
        }
        i = i + 1;
    }
    assert(args@.take(args@.len() as int) =~= args@);
}

pub fn collect_reads_record(r: &HirRecord, out: &mut Vec<String>)
    ensures
        views(final(out)@) == views(old(out)@) + record_reads(*r),
    decreases r, 2int,
{
    let ghost o0 = views(out@);
    match &r.value {
        Some(v) => collect_reads_expr(v, out),
        None => {},
    }
    collect_reads_records(&r.children, out);
}

pub fn collect_reads_records(records: &Vec<HirRecord>, out: &mut Vec<String>)
    ensures
        views(final(out)@) == views(old(out)@) + records_reads(records@),
    decreases records@, 1int,
{
    let ghost o0 = views(out@);
    let mut i: usize = 0;
    assert(records@.take(0) =~= Seq::<HirRecord>::empty());
    while i < records.len()
        invariant
            i <= records@.len(),
            views(out@) == o0 + records_reads(records@.take(i as int)),
        decreases records.len() - i,
    {
        proof {
            assert(decreases_to!(records@ => records@[i as int]));
        }
        collect_reads_record(&records[i], out);
        proof {
            let t = records@.take(i + 1);
            assert(t.drop_last() =~= records@.take(i as int));
        }
        i = i + 1;
    }
    assert(records@.take(records@.len() as int) =~= records@);
}

/// Appends the store sources that the items of a module read.
pub fn collect_module_reads(hir: &HirModule) -> (r: Vec<String>)
    ensures
        views(r@) == module_reads(*hir),
{
    let mut out: Vec<String> = Vec::new();
    let mut i: usize = 0;
    assert(views(out@) =~= Seq::<Seq<char>>::empty());
    assert(hir.items@.take(0) =~= Seq::<HirItem>::empty());
    while i < hir.items.len()
        invariant
            i <= hir.items@.len(),
            views(out@) == items_reads(hir.items@.take(i as int)),
        decreases hir.items.len() - i,
    {
        match &hir.items[i] {
            HirItem::Record(r) => collect_reads_record(r, &mut out),
            HirItem::Function(f) => collect_reads_expr(&f.body, &mut out),
            HirItem::Expression(e) => collect_reads_expr(e, &mut out),
        }
        proof {
            let t = hir.items@.take(i + 1);
            assert(t.drop_last() =~= hir.items@.take(i as int));
        }
        i = i + 1;
    }
    assert(hir.items@.take(hir.items@.len() as int) =~= hir.items@);
    out
}

/// Some `SOURCE` leaf of the inventory stands at `path` or below it.
pub open spec fn backed(entries: Seq<SourceEntry>, path: Seq<char>) -> bool {
    exists|i: int|
        0 <= i < entries.len() && ((#[trigger] entries[i]).path@ == path || has_prefix(entries[i].path@, path + "."@))
}

/// Whether some `SOURCE` leaf of the inventory stands at `path` or below it.
pub fn source_path_backed(sources: &SourceInventory, path: &[char]) -> (r: bool)
    ensures
        r == backed(sources.entries@, path@),
{
    let mut below: Vec<char> = Vec::new();
    crate::text::push_all(&mut below, path);
    push_str(&mut below, ".");
    let mut i: usize = 0;
    while i < sources.entries.len()
        invariant
            i <= sources.entries@.len(),
            below@ == path@ + "."@,
            forall|j: int| 0 <= j < i ==> !((#[trigger] sources.entries@[j]).path@ == path@
                || has_prefix(sources.entries@[j].path@, path@ + "."@)),
        decreases sources.entries.len() - i,
    {
        let p = chars_of_string(&sources.entries[i].path);
        if crate::text::seq_eq(&p, path) || crate::text::starts_with(&p, &below) {
            return true;
        }
        i = i + 1;
    }
    false
}

/// `a` sorts before `b`, character by character as `String` orders them.
pub open spec fn text_lt(a: Seq<char>, b: Seq<char>) -> bool
    decreases a.len(),
{
    if b.len() == 0 {
        false
    } else if a.len() == 0 {
        true
    } else if a[0] != b[0] {
        (a[0] as u32) < (b[0] as u32)
    } else {
        text_lt(a.drop_first(), b.drop_first())
    }
}

pub proof fn lemma_text_lt_trans(a: Seq<char>, b: Seq<char>, c: Seq<char>)
    requires
        text_lt(a, b),
        text_lt(b, c),
    ensures
        text_lt(a, c),
    decreases a.len(),
{
    if a.len() > 0 && b.len() > 0 && c.len() > 0 && a[0] == b[0] && b[0] == c[0] {
        lemma_text_lt_trans(a.drop_first(), b.drop_first(), c.drop_first());
    }
}

/// Whether `a` sorts before `b`.
pub fn string_lt(a: &String, b: &String) -> (r: bool)
    ensures
        r == text_lt(a@, b@),
{
    let x = chars_of_string(a);
    let y = chars_of_string(b);
    let mut k: usize = 0;
    assert(x@.subrange(0, x@.len() as int) =~= x@);
    assert(y@.subrange(0, y@.len() as int) =~= y@);
    while k < x.len() && k < y.len() && x[k] == y[k]
        invariant
            k <= x@.len() && k <= y@.len(),
            text_lt(a@, b@) == text_lt(x@.subrange(k as int, x@.len() as int), y@.subrange(k as int, y@.len() as int)),
            x@ == a@ && y@ == b@,
        decreases x.len() - k,
    {
        proof {
            let xs = x@.subrange(k as int, x@.len() as int);
            let ys = y@.subrange(k as int, y@.len() as int);
            assert(xs.drop_first() =~= x@.subrange(k + 1, x@.len() as int));
            assert(ys.drop_first() =~= y@.subrange(k + 1, y@.len() as int));
        }
        k = k + 1;
    }
    proof {
        assert(x@.subrange(0, x@.len() as int) =~= x@);
        assert(y@.subrange(0, y@.len() as int) =~= y@);
    }
    if k == y.len() {
        false
    } else if k == x.len() {
        true
    } else {
        (x[k] as u32) < (y[k] as u32)
    }
}

/// Checks that every store source the module reads is produced; the error
/// names the first unproduced path in `String` order.
pub fn validate_static_source_reads(hir: &HirModule, sources: &SourceInventory) -> (r: Result<(), String>)
    ensures
        r is Ok <==> forall|i: int| 0 <= i < module_reads(*hir).len() ==> backed(sources.entries@, #[trigger] module_reads(*hir)[i]),
        r matches Err(p) ==> module_reads(*hir).contains(p@) && !backed(sources.entries@, p@) && forall|i: int|
            0 <= i < module_reads(*hir).len() && !backed(sources.entries@, #[trigger] module_reads(*hir)[i])
                ==> !text_lt(module_reads(*hir)[i], p@),
{
    let reads = collect_module_reads(hir);
    let ghost rs = module_reads(*hir);
    let mut worst: Option<usize> = None;
    let mut i: usize = 0;
    while i < reads.len()
        invariant
            i <= reads@.len(),
            views(reads@) == rs,
            rs == module_reads(*hir),
            match worst {
                Some(w) => w < i && !backed(sources.entries@, rs[w as int]) && forall|j: int|
                    0 <= j < i && !backed(sources.entries@, #[trigger] rs[j]) ==> !text_lt(rs[j], rs[w as int]),
                None => forall|j: int| 0 <= j < i ==> backed(sources.entries@, #[trigger] rs[j]),
            },
        decreases reads.len() - i,
    {
        let p = chars_of_string(&reads[i]);
        assert(p@ == rs[i as int]);
        if !source_path_backed(sources, &p) {
            match worst {
                Some(w) => {
                    if string_lt(&reads[i], &reads[w]) {
                        proof {
                            assert forall|j: int| 0 <= j < i + 1 && !backed(sources.entries@, #[trigger] rs[j])
                                implies !text_lt(rs[j], rs[i as int]) by {
                                if j < i && text_lt(rs[j], rs[i as int]) {
                                    lemma_text_lt_trans(rs[j], rs[i as int], rs[w as int]);
                                }
                                if j == i {
                                    lemma_text_lt_irrefl(rs[j]);
                                }
                            }
                        }
                        worst = Some(i);
                    }
                },
                None => {
                    proof {
                        lemma_text_lt_irrefl(rs[i as int]);
                    }
                    worst = Some(i);
                },
            }
        }
        i = i + 1;
    }
    match worst {
        Some(w) => {
            let p = chars_of_string(&reads[w]);
            proof {
                assert(rs[w as int] == p@);
                assert(rs.contains(p@));
            }
            Err(string_of(&p))
        },
        None => Ok(()),
    }
}

pub proof fn lemma_text_lt_irrefl(a: Seq<char>)
    ensures
        !text_lt(a, a),
    decreases a.len(),
{
    if a.len() > 0 {
        lemma_text_lt_irrefl(a.drop_first());
    }
}

/// Every path of the sequence is a store source.
pub open spec fn all_store(p: Seq<Seq<char>>) -> bool {
    forall|i: int| 0 <= i < p.len() ==> has_prefix(#[trigger] p[i], "store.sources."@)
}

proof fn lemma_all_store_concat(a: Seq<Seq<char>>, b: Seq<Seq<char>>)
    requires
        all_store(a),
        all_store(b),
    ensures
        all_store(a + b),
{
    assert forall|i: int| 0 <= i < (a + b).len() implies has_prefix(#[trigger] (a + b)[i], "store.sources."@) by {
        if i < a.len() {
            assert((a + b)[i] == a[i]);
        } else {
            assert((a + b)[i] == b[i - a.len()]);
        }
    }
}

proof fn lemma_expr_reads_store(e: HirExpr)
    ensures
        all_store(expr_reads(e)),
    decreases e, 1int,
{
    let head = store_read(e);
    assert(all_store(head));
    let tail = match e.kind {
        HirExprKind::Record { entries } => {
            lemma_records_reads_store(entries@);
            records_reads(entries@)
        },
        HirExprKind::List { items } => {
            lemma_exprs_reads_store(items@);
            exprs_reads(items@)
        },
        HirExprKind::Latest { branches } => {
            lemma_exprs_reads_store(branches@);
            exprs_reads(branches@)
        },
        HirExprKind::Block { bindings } => {
            lemma_bindings_reads_store(bindings@);
            bindings_reads(bindings@)
        },
        HirExprKind::When { arms } => {
            lemma_arms_reads_store(arms@);
            arms_reads(arms@)
        },
        HirExprKind::While { arms } => {
            lemma_arms_reads_store(arms@);
            arms_reads(arms@)
        },
        HirExprKind::Then { body } => {
            lemma_expr_reads_store(*body);
            expr_reads(*body)
        },
        HirExprKind::Hold { body, .. } => {
            lemma_expr_reads_store(*body);
            expr_reads(*body)
        },
        HirExprKind::HostCall { args, .. } => {
            lemma_args_reads_store(args@);
            args_reads(args@)
        },
        HirExprKind::ListCall { args, .. } => {
            lemma_args_reads_store(args@);
            args_reads(args@)
        },
        HirExprKind::FunctionCall { args, .. } => {
            lemma_args_reads_store(args@);
            args_reads(args@)
        },
        HirExprKind::Pipeline { input, stages } => {
            lemma_expr_reads_store(*input);
            lemma_exprs_reads_store(stages@);
            lemma_all_store_concat(expr_reads(*input), exprs_reads(stages@));
            expr_reads(*input) + exprs_reads(stages@)
        },
        HirExprKind::Binary { left, right, .. } => {
            lemma_expr_reads_store(*left);
            lemma_expr_reads_store(*right);
            lemma_all_store_concat(expr_reads(*left), expr_reads(*right));
            expr_reads(*left) + expr_reads(*right)
        },
        _ => Seq::empty(),
    };
    assert(expr_reads(e) == head + tail);
    lemma_all_store_concat(head, tail);
}

proof fn lemma_record_reads_store(r: HirRecord)
    ensures
        all_store(record_reads(r)),
    decreases r, 1int,
{
    let a = match r.value {
        Some(v) => {
            lemma_expr_reads_store(v);
            expr_reads(v)
        },
        None => Seq::empty(),
    };
    lemma_records_reads_store(r.children@);
    lemma_all_store_concat(a, records_reads(r.children@));
}

proof fn lemma_exprs_reads_store(s: Seq<HirExpr>)
    ensures
        all_store(exprs_reads(s)),
    decreases s, 0int,
{
    if s.len() > 0 {
        assert(decreases_to!(s => s[s.len() - 1]));
        lemma_exprs_reads_store(s.drop_last());
        lemma_expr_reads_store(s[s.len() - 1]);
        lemma_all_store_concat(exprs_reads(s.drop_last()), expr_reads(s[s.len() - 1]));
    }
}

proof fn lemma_records_reads_store(s: Seq<HirRecord>)
    ensures
        all_store(records_reads(s)),
    decreases s, 0int,
{
    if s.len() > 0 {
        assert(decreases_to!(s => s[s.len() - 1]));
        lemma_records_reads_store(s.drop_last());
        lemma_record_reads_store(s[s.len() - 1]);
        lemma_all_store_concat(records_reads(s.drop_last()), record_reads(s[s.len() - 1]));
    }
}

proof fn lemma_bindings_reads_store(s: Seq<HirBinding>)
    ensures
        all_store(bindings_reads(s)),
    decreases s, 0int,
{
    if s.len() > 0 {
        assert(decreases_to!(s => s[s.len() - 1]));
        lemma_bindings_reads_store(s.drop_last());
        lemma_expr_reads_store(s[s.len() - 1].value);
        lemma_all_store_concat(bindings_reads(s.drop_last()), expr_reads(s[s.len() - 1].value));
    }
}

proof fn lemma_arms_reads_store(s: Seq<HirWhenArm>)
    ensures
        all_store(arms_reads(s)),
    decreases s, 0int,
{
    if s.len() > 0 {
        assert(decreases_to!(s => s[s.len() - 1]));
        lemma_arms_reads_store(s.drop_last());
        lemma_expr_reads_store(s[s.len() - 1].value);
        lemma_all_store_concat(arms_reads(s.drop_last()), expr_reads(s[s.len() - 1].value));
    }
}

proof fn lemma_args_reads_store(s: Seq<HirCallArg>)
    ensures
        all_store(args_reads(s)),
    decreases s, 0int,
{
    if s.len() > 0 {
        assert(decreases_to!(s => s[s.len() - 1]));
        lemma_args_reads_store(s.drop_last());
        lemma_expr_reads_store(s[s.len() - 1].value);
        lemma_all_store_concat(args_reads(s.drop_last()), expr_reads(s[s.len() - 1].value));
    }
}

proof fn lemma_items_reads_store(s: Seq<HirItem>)
    ensures
        all_store(items_reads(s)),
    decreases s.len(),
{
    if s.len() > 0 {
        lemma_items_reads_store(s.drop_last());
        let it = s[s.len() - 1];
        match it {
            HirItem::Record(r) => lemma_record_reads_store(r),
            HirItem::Function(f) => lemma_expr_reads_store(f.body),
            HirItem::Expression(e) => lemma_expr_reads_store(e),
        }
        lemma_all_store_concat(items_reads(s.drop_last()), item_reads(it));
    }
}

/// Every store source a module reads starts with `store.sources.`.
pub proof fn lemma_reads_are_store_sources(hir: HirModule, k: int)
    requires
        0 <= k < module_reads(hir).len(),
    ensures
        has_prefix(module_reads(hir)[k], "store.sources."@),
{
    lemma_items_reads_store(hir.items@);
}

} // verus!
