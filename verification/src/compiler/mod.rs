//! The Boon compiler: checks a parsed and lowered module against the host
//! contracts, builds its source inventory, and lowers it to the app IR and
//! the executable IR that the runtimes consume.
use vstd::prelude::*;
use crate::hir::{HirDiagnostic, HirModule, lower};
use crate::host_schema::element_contracts;
use crate::source::{SourceEntry, SourceInventory, SourceOwner};
use crate::syntax::{ParseError, parse_module};
use crate::syntax::module::{source_fits, tab_line};
use crate::text::{chars_of, chars_of_string, dec_chars, has_prefix, push_all, push_decimal, push_str, string_of};

pub mod paths;
pub mod bindings;
pub mod infer;
pub mod reads;
pub mod checks;
pub mod provenance;
pub mod metadata;
pub mod resolve;
pub mod hirq;
pub mod statics;
pub mod render;
pub mod exec_ir;
pub mod dedupe;
pub mod app_ir;
pub mod error;

pub use error::CompileError;

verus! {

#[derive(Debug)]
pub struct CompiledModule {
    pub name: String,
    pub hir: HirModule,
    pub sources: SourceInventory,
    pub program: IrAppMetadata,
    pub app_ir: AppIr,
    pub executable_ir: ExecutableIr,
    pub provenance: CompiledProvenance,
}

#[derive(Debug)]
pub struct CompiledProvenance {
    pub source_sha256: String,
    pub hir_sha256: String,
    pub source_spans: Vec<CompiledSourceSpan>,
}

#[derive(Debug)]
pub struct CompiledSourceSpan {
    pub kind: String,
    pub path: String,
    pub line: usize,
    pub column: usize,
}

#[derive(Debug)]
pub struct AppIr {
    pub state_cells: Vec<IrStateCell>,
    pub collection_states: Vec<IrCollectionState>,
    pub static_records: Vec<IrStaticRecord>,
    pub event_handlers: Vec<IrEventHandler>,
    pub render_tree: Option<IrRenderNode>,
}

#[derive(Debug)]
pub struct ExecutableIr {
    pub state_slots: Vec<ExecStateSlot>,
    pub source_handlers: Vec<ExecSourceHandler>,
    pub scene: Option<IrRenderNode>,
}

#[derive(Debug)]
pub struct ExecStateSlot {
    pub path: String,
    pub initial: ExecExpr,
}

#[derive(Debug)]
pub struct ExecSourceHandler {
    pub source_path: String,
    pub effects: Vec<ExecEffect>,
}

#[derive(Debug)]
pub struct ExecCallArg {
    pub name: String,
    pub value: ExecExpr,
}

#[derive(Debug)]
pub struct ExecWhenArm {
    pub pattern: String,
    pub value: ExecExpr,
}

#[derive(Debug)]
pub enum ExecEffect {
    SetState { path: String, value: ExecExpr },
}

#[derive(Debug)]
pub enum ExecExpr {
    Number { value: i64 },
    Text { value: String },
    Bool { value: bool },
    Tag { value: String },
    State { path: String },
    Source { path: String },
    Add { left: Box<ExecExpr>, right: Box<ExecExpr> },
    Subtract { left: Box<ExecExpr>, right: Box<ExecExpr> },
    Equal { left: Box<ExecExpr>, right: Box<ExecExpr> },
    TextFromNumber { value: Box<ExecExpr> },
    Call { path: String, args: Vec<ExecCallArg> },
    When { arms: Vec<ExecWhenArm> },
    Skip,
}

#[derive(Debug)]
pub struct IrStateCell {
    pub path: String,
    pub initial: IrValueExpr,
}

#[derive(Debug)]
pub struct IrCollectionState {
    pub path: String,
    pub initial_entries: Vec<IrCollectionSeed>,
}

#[derive(Debug)]
pub struct IrCollectionSeed {
    pub fields: Vec<IrStaticField>,
}

#[derive(Debug)]
pub struct IrStaticRecord {
    pub path: String,
    pub fields: Vec<IrStaticField>,
}

#[derive(Debug)]
pub struct IrStaticField {
    pub key: String,
    pub value: IrStaticValue,
}

#[derive(Debug)]
pub enum IrStaticValue {
    Text { value: String },
    Number { value: i64 },
    Bool { value: bool },
    Tag { value: String },
    Path { value: String },
    Range { from: i64, to: i64 },
    Record { fields: Vec<IrStaticField> },
    List { items: Vec<IrStaticValue> },
}

#[derive(Debug)]
pub struct IrEventHandler {
    pub source_path: String,
    pub when: Option<IrPredicate>,
    pub effects: Vec<IrEffect>,
}

#[derive(Debug)]
pub struct IrRenderNode {
    pub id: String,
    pub kind: IrRenderKind,
    pub source_path: Option<String>,
    pub collection_path: Option<String>,
    pub text: Option<IrRenderText>,
    pub children: Vec<IrRenderNode>,
}

#[derive(Clone, Copy, Debug, PartialEq, Eq, Structural)]
pub enum IrRenderKind {
    Root,
    Panel,
    Text,
    Button,
    TextInput,
    Checkbox,
    Label,
    Grid,
    ListMap,
    Unknown,
}

#[derive(Debug)]
pub enum IrRenderText {
    Literal { value: String },
    Binding { path: String },
}

#[derive(Debug)]
pub enum IrEffect {
    Assign { state_path: String, expr: IrValueExpr },
    CollectionAppendRecord {
        collection_path: String,
        fields: Vec<IrCollectionFieldAssignment>,
        skip_if_empty_field: Option<String>,
    },
    CollectionUpdateAllFields { collection_path: String, field: String, value: IrCollectionValueExpr },
    CollectionUpdateOwnerField { collection_path: String, field: String, value: IrCollectionValueExpr },
    CollectionRemoveCurrent { collection_path: String },
    CollectionRemoveWhere { collection_path: String, predicate: IrCollectionPredicate },
    SetTagState { state_path: String, value: String },
    ClearText { text_state_path: String },
}

#[derive(Debug)]
pub struct IrCollectionFieldAssignment {
    pub field: String,
    pub value: IrCollectionValueExpr,
}

#[derive(Debug)]
pub enum IrCollectionValueExpr {
    Static { value: IrStaticValue },
    SourceText { path: String, trim: bool },
    NotOwnerBoolField { field: String },
    NotAllBoolField { field: String },
}

#[derive(Debug)]
pub enum IrCollectionPredicate {
    FieldBoolEquals { field: String, value: bool },
}

#[derive(Debug)]
pub enum IrPredicate {
    SourceTagEquals { path: String, tag: String },
}

#[derive(Debug)]
pub enum IrValueExpr {
    Number { value: i64 },
    Hold { state_path: String },
    Add { left: Box<IrValueExpr>, right: Box<IrValueExpr> },
    Source { path: String },
    Skip,
}

#[derive(Debug)]
pub struct IrAppMetadata {
    pub title: String,
    pub primary_label: Option<String>,
    pub physical_debug: bool,
}

/// The facts a compiled module holds of its inventory: one entry per
/// `SOURCE` leaf, numbered in order, no path twice, every store source the
/// module reads produced, and both IRs listening only to inventory sources.
pub open spec fn compiled_sound(m: CompiledModule) -> bool {
    let entries = m.sources.entries@;
    &&& m.hir.diagnostics@.len() == 0
    &&& entries.len() == m.hir.parsed.source_leaves@.len()
    &&& forall|i: int| 0 <= i < entries.len() ==> (#[trigger] entries[i]).id == i
    &&& forall|i: int, j: int| 0 <= i < j < entries.len() ==> entries[i].path@ != entries[j].path@
    &&& forall|i: int| 0 <= i < reads::module_reads(m.hir).len() ==> reads::backed(entries, #[trigger] reads::module_reads(m.hir)[i])
    &&& forall|i: int| 0 <= i < m.hir.parsed.module_calls@.len() ==> checks::refused_family((#[trigger] m.hir.parsed.module_calls@[i]).path@) is None
    &&& app_ir::app_ir_sound(m.app_ir, entries)
    &&& exec_ir::exec_ir_sound(m.executable_ir, entries)
}

/// Some module call is an `Element/*` call.
pub open spec fn has_element_call(m: crate::syntax::ParsedModule) -> bool {
    exists|i: int| 0 <= i < m.module_calls@.len() && has_prefix((#[trigger] m.module_calls@[i]).path@, "Element/"@)
}

fn any_element_call(m: &crate::syntax::ParsedModule) -> (r: bool)
    ensures
        r == has_element_call(*m),
{
    let mut i: usize = 0;
    while i < m.module_calls.len()
        invariant
            i <= m.module_calls@.len(),
            forall|j: int| 0 <= j < i ==> !has_prefix((#[trigger] m.module_calls@[j]).path@, "Element/"@),
        decreases m.module_calls.len() - i,
    {
        if paths::starts_with_str(&chars_of_string(&m.module_calls[i].path), "Element/") {
            return true;
        }
        i = i + 1;
    }
    false
}

/// Whether some entry already has `path`.
fn path_taken(entries: &Vec<SourceEntry>, path: &String) -> (r: bool)
    ensures
        r == exists|j: int| 0 <= j < entries@.len() && (#[trigger] entries@[j]).path@ == path@,
{
    let mut j: usize = 0;
    while j < entries.len()
        invariant
            j <= entries@.len(),
            forall|k: int| 0 <= k < j ==> (#[trigger] entries@[k]).path@ != path@,
        decreases entries.len() - j,
    {
        if crate::text::string_eq(&entries[j].path, path) {
            return true;
        }
        j = j + 1;
    }
    false
}

/// The producer text of an entry: the element function and the path below
/// its `element` argument.
fn producer_text(function: &String, relative: &String) -> (r: String)
    ensures
        r@ == function@ + "(element."@ + relative@ + ")"@,
{
    let mut v = chars_of_string(function);
    push_str(&mut v, "(element.");
    push_all(&mut v, &chars_of_string(relative));
    push_str(&mut v, ")");
    string_of(&v)
}

/// The paths of inventory entries.
pub open spec fn entry_paths(es: Seq<SourceEntry>) -> Seq<Seq<char>> {
    es.map_values(|e: SourceEntry| e.path@)
}

/// Whether `e` is the `i`-th entry, at `path`, produced by the match `m`
/// (function, relative path, shape): read by the compiled logic, owned by
/// its dynamic family where the path holds `[*]`.
pub open spec fn entry_ok(e: SourceEntry, i: int, path: Seq<char>, m: (Seq<char>, Seq<char>, crate::shape::ShapeModel)) -> bool {
    &&& e.id == i
    &&& e.path@ == path
    &&& e.shape@ == m.2
    &&& e.producer@ == m.0 + "(element."@ + m.1 + ")"@
    &&& e.readers@.len() == 1
    &&& e.readers@[0]@ == "compiled logic"@
    &&& if crate::text::contains_seq(path, "[*]"@) {
        match e.owner {
            SourceOwner::DynamicFamily { owner_path } => owner_path@ == paths::owner_label(path),
            SourceOwner::Static => false,
        }
    } else {
        e.owner is Static
    }
}

/// What the `i`-th `SOURCE` leaf, at normal path `path` on line `line`,
/// gives after the entries at `earlier`: an error where the path is
/// empty, taken, produced by no binding of `hb` or by several, else its
/// entry.
pub open spec fn leaf_outcome(
    path: Seq<char>,
    line: usize,
    earlier: Seq<Seq<char>>,
    hb: Seq<(Seq<char>, Seq<char>)>,
    ct: Seq<crate::host_schema::HostContract>,
    i: int,
    r: Result<SourceEntry, CompileError>,
) -> bool {
    let ms = bindings::source_matches(path, hb, ct);
    if path.len() == 0 {
        match r {
            Err(CompileError::MissingDataPath { line: l }) => l == line,
            _ => false,
        }
    } else if earlier.contains(path) {
        match r {
            Err(CompileError::DuplicateSource { path: x }) => x@ == path,
            _ => false,
        }
    } else if ms.len() == 0 {
        match r {
            Err(CompileError::UnboundSource { path: x }) => x@ == path,
            _ => false,
        }
    } else if ms.len() >= 2 {
        match r {
            Err(CompileError::AmbiguousSource { path: x }) => x@ == path,
            _ => false,
        }
    } else {
        match r {
            Ok(e) => entry_ok(e, i, path, ms[0]),
            _ => false,
        }
    }
}

/// The inventory entry of the `i`-th `SOURCE` leaf: its normal path, which
/// must be new, and the one element binding that produces it.
fn source_entry(
    leaf: &crate::syntax::SourceLeaf,
    i: usize,
    seq_ref: Option<&str>,
    host_bindings: &Vec<bindings::HostBinding>,
    contracts: &Vec<crate::host_schema::HostContract>,
    entries: &Vec<SourceEntry>,
) -> (r: Result<SourceEntry, CompileError>)
    ensures
        r matches Ok(e) ==> e.id == i && forall|k: int| 0 <= k < entries@.len() ==> (#[trigger] entries@[k]).path@ != e.path@,
        r matches Err(e) ==> (e is MissingDataPath || e is DuplicateSource || e is UnboundSource || e is AmbiguousSource),
        leaf_outcome(
            paths::normalized_source_path(leaf.path@, match seq_ref {
                Some(x) => Some(x@),
                None => None,
            }),
            leaf.span.line,
            entry_paths(entries@),
            bindings::bindings_model(host_bindings@),
            contracts@,
            i as int,
            r,
        ),
{
    let source_path = paths::normalize_source_path(leaf.path.as_str(), seq_ref);
    if chars_of_string(&source_path).len() == 0 {
        return Err(CompileError::MissingDataPath { line: leaf.span.line });
    }
    if path_taken(entries, &source_path) {
        proof {
            let j = choose|j: int| 0 <= j < entries@.len() && (#[trigger] entries@[j]).path@ == source_path@;
            assert(entry_paths(entries@)[j] == source_path@);
        }
        return Err(CompileError::DuplicateSource { path: source_path });
    }
    assert(!entry_paths(entries@).contains(source_path@));
    let binding = match bindings::binding_for_source(source_path.as_str(), host_bindings, contracts) {
        Ok(b) => b,
        Err(bindings::BindingError::NoBinding) => return Err(CompileError::UnboundSource { path: source_path }),
        Err(bindings::BindingError::Ambiguous) => return Err(CompileError::AmbiguousSource { path: source_path }),
    };
    let owner = if crate::text::contains(&chars_of_string(&source_path), &chars_of("[*]")) {
        SourceOwner::DynamicFamily { owner_path: paths::owner_path(source_path.as_str()) }
    } else {
        SourceOwner::Static
    };
    let mut readers: Vec<String> = Vec::new();
    readers.push("compiled logic".to_owned());
    proof {
        reveal_strlit("[*]");
    }
    let producer = producer_text(&binding.function, &binding.relative_path);
    Ok(SourceEntry { id: i, path: source_path, shape: binding.shape, producer, readers, owner })
}

/// The key of the record inferred as the dynamic sequence root.
pub open spec fn seq_root_key(p: crate::syntax::ParsedModule) -> Option<Seq<char>> {
    match infer::sequence_root(p) {
        Some(i) => Some(p.records@[i].key@),
        None => None,
    }
}

/// The key of the record inferred as the dense source root.
pub open spec fn dense_root_key(p: crate::syntax::ParsedModule) -> Option<Seq<char>> {
    match infer::dense_root(p) {
        Some(i) => Some(p.records@[i].key@),
        None => None,
    }
}

/// The element bindings of a module, with its `List/map` aliases resolved.
pub open spec fn module_bindings(p: crate::syntax::ParsedModule) -> Seq<(Seq<char>, Seq<char>)> {
    bindings::host_bindings_of(
        p.module_calls@,
        bindings::aliases_after(p.map_bindings@, p.map_bindings@.len() as int, seq_root_key(p), dense_root_key(p)),
    )
}

/// The normal path of the `i`-th `SOURCE` leaf.
pub open spec fn leaf_path(p: crate::syntax::ParsedModule, i: int) -> Seq<char> {
    paths::normalized_source_path(p.source_leaves@[i].path@, seq_root_key(p))
}

/// The normal paths of the first `n` leaves.
pub open spec fn leaf_paths(p: crate::syntax::ParsedModule, n: int) -> Seq<Seq<char>> {
    Seq::new(n as nat, |i: int| leaf_path(p, i))
}

/// Whether the `i`-th leaf is refused: its normal path is empty, an
/// earlier leaf has it, or not exactly one element binding produces it.
pub open spec fn leaf_fails(p: crate::syntax::ParsedModule, ct: Seq<crate::host_schema::HostContract>, i: int) -> bool {
    let path = leaf_path(p, i);
    path.len() == 0 || leaf_paths(p, i).contains(path) || bindings::source_matches(path, module_bindings(p), ct).len()
        != 1
}

/// Whether some path of `paths` is `read` or lies below it.
pub open spec fn backed_by(paths: Seq<Seq<char>>, read: Seq<char>) -> bool {
    exists|i: int| 0 <= i < paths.len() && ((#[trigger] paths[i]) == read || has_prefix(paths[i], read + "."@))
}

/// What compiling module `name` with HIR `h` (against the element contract
/// table `ct`) gives: the lowering diagnostics; else the first refused
/// module call; else the error of the first refused `SOURCE` leaf; else,
/// without an `Element/*` call, the missing bindings; else the least
/// store read that no leaf backs; else the compiled module, with one
/// inventory entry per leaf.
#[verifier::opaque]
pub open spec fn compile_outcome(
    name: Seq<char>,
    h: HirModule,
    ct: Seq<crate::host_schema::HostContract>,
    r: Result<CompiledModule, CompileError>,
) -> bool {
    let p = h.parsed;
    let calls = p.module_calls@;
    let n = p.source_leaves@.len() as int;
    let rd = reads::module_reads(h);
    if h.diagnostics@.len() > 0 {
        match r {
            Err(CompileError::UnsupportedSyntax { module, diagnostics }) => module@ == name && diagnostics@ == h.diagnostics@,
            _ => false,
        }
    } else if exists|j: int| 0 <= j < calls.len() && checks::refused_family((#[trigger] calls[j]).path@) is Some {
        match r {
            Err(CompileError::UnsupportedCall { family, path, line, column }) => exists|i: int|
                0 <= i < calls.len() && (forall|j: int| 0 <= j < i ==> checks::refused_family((#[trigger] calls[j]).path@) is None)
                    && checks::refused_family(calls[i].path@) == Some(family) && path@ == calls[i].path@
                    && line == calls[i].span.line && column == calls[i].span.column,
            _ => false,
        }
    } else if exists|i: int| 0 <= i < n && #[trigger] leaf_fails(p, ct, i) {
        exists|i: int| 0 <= i < n && #[trigger] leaf_fails(p, ct, i) && (forall|j: int| 0 <= j < i ==> !leaf_fails(p, ct, j))
            && match r {
                Err(e) => leaf_outcome(leaf_path(p, i), p.source_leaves@[i].span.line, leaf_paths(p, i), module_bindings(p), ct, i, Err(e)),
                Ok(_) => false,
            }
    } else if !has_element_call(p) {
        match r {
            Err(CompileError::NoElementBindings { module }) => module@ == name,
            _ => false,
        }
    } else if exists|k: int| 0 <= k < rd.len() && !backed_by(leaf_paths(p, n), #[trigger] rd[k]) {
        match r {
            Err(CompileError::UnboundRead { path }) => rd.contains(path@) && !backed_by(leaf_paths(p, n), path@)
                && forall|k: int| 0 <= k < rd.len() && !backed_by(leaf_paths(p, n), #[trigger] rd[k]) ==> !reads::text_lt(rd[k], path@),
            _ => false,
        }
    } else {
        match r {
            Ok(m) => {
                &&& m.hir == h
                &&& m.name@ == name
                &&& app_ir::app_ir_result(m.app_ir, h, m.sources.entries@)
                &&& exec_ir::exec_ir_result(m.executable_ir, h, m.sources.entries@)
                &&& metadata::metadata_result(m.program, name, p)
                &&& m.sources.entries@.len() == n
                &&& forall|i: int| 0 <= i < n ==> entry_ok(
                    #[trigger] m.sources.entries@[i],
                    i,
                    leaf_path(p, i),
                    bindings::source_matches(leaf_path(p, i), module_bindings(p), ct)[0],
                )
            },
            _ => false,
        }
    }
}

/// What lowering states of the HIR of its parsed module.
pub open spec fn lower_result(h: HirModule) -> bool {
    let parsed = h.parsed;
    &&& h.items@.len() == parsed.ast.items@.len()
    &&& forall|k: int| 0 <= k < h.items@.len() ==> crate::hir::item_lowers(#[trigger] h.items@[k], parsed.ast.items@[k])
    &&& (h.diagnostics@.len() > 0) == crate::hir::spec::module_issue(parsed.ast)
    &&& crate::hir::diag_view(h.diagnostics@) == crate::hir::items_diags(parsed.ast.items@)
    &&& crate::hir::dep_view(h.dependencies@) == crate::hir::hitems_deps(h.items@)
}

/// Compiles a module: parses and lowers it, refuses what it cannot carry
/// (raw syntax, unsupported calls, `SOURCE` leaves without exactly one
/// compatible `Element/*` producer, store reads that nothing produces),
/// builds its source inventory and lowers it to the app IR and the
/// executable IR.
#[verifier::spinoff_prover]
#[verifier::rlimit(100)]
pub fn compile_source(name: &str, source: &str) -> (r: Result<CompiledModule, CompileError>)
    requires
        source_fits(source@),
    ensures
        (r matches Err(CompileError::Parse { error: ParseError::TabIndent { line } })) <==> tab_line(source@) is Some,
        r matches Err(CompileError::Parse { error: ParseError::TabIndent { line } }) ==> tab_line(source@) == Some(line as nat),
        r matches Err(CompileError::UnsupportedSyntax { module, diagnostics }) ==> module@ == name@ && diagnostics@.len() > 0,
        r matches Err(CompileError::UnsupportedCall { family, path, .. }) ==> checks::refused_family(path@) == Some(family),
        r matches Err(CompileError::UnboundRead { path }) ==> has_prefix(path@, "store.sources."@),
        r matches Err(CompileError::NoElementBindings { module }) ==> module@ == name@,
        r matches Ok(m) ==> {
            &&& m.name@ == name@
            &&& compiled_sound(m)
            &&& has_element_call(m.hir.parsed)
            &&& m.provenance.source_sha256@ == provenance::hex_text(provenance::sha256_of_text(source@))
            &&& provenance::provenance_result(m.provenance, source@, m.hir.parsed)
            &&& metadata::metadata_result(m.program, name@, m.hir.parsed)
            &&& m.program.title@ == match metadata::first_child_text_spec(m.hir.parsed, "title"@) {
                Some(t) => t,
                None => metadata::spaced_name(name@),
            }
        },
        tab_line(source@) is None ==> exists|h: HirModule, ct: Seq<crate::host_schema::HostContract>|
            crate::syntax::module::parse_result(name@, source@, h.parsed) && lower_result(h)
                && crate::host_schema::is_contract_table(ct) && compile_outcome(name@, h, ct, r),
{
    let parsed = match parse_module(name, source) {
        Ok(p) => p,
        Err(e) => return Err(CompileError::Parse { error: e }),
    };
    let ghost pm = parsed;
    let hir = lower(parsed);
    let ghost h = hir;
    let contracts = element_contracts();
    let ghost ct = contracts@;
    assert(crate::syntax::module::parse_result(name@, source@, h.parsed));
    assert(lower_result(h));
    if hir.diagnostics.len() > 0 {
        let HirModule { diagnostics, .. } = hir;
        let res = Err(CompileError::UnsupportedSyntax { module: string_of(&chars_of(name)), diagnostics });
        proof {
            reveal(compile_outcome);
        }
        assert(compile_outcome(name@, h, ct, res));
        return res;
    }
    match checks::validate_supported_module_paths(&hir.parsed) {
        Some((i, family)) => {
            let call = &hir.parsed.module_calls[i];
            let res = Err(CompileError::UnsupportedCall {
                family,
                path: call.path.clone(),
                line: call.span.line,
                column: call.span.column,
            });
            assert(checks::refused_family(h.parsed.module_calls@[i as int].path@) is Some);
            proof {
            reveal(compile_outcome);
        }
        assert(compile_outcome(name@, h, ct, res));
            return res;
        },
        None => {},
    }
    let provenance = provenance::compiled_provenance(source, &hir.parsed);
    assert(provenance::provenance_result(provenance, source@, hir.parsed));
    let seq_root = infer::infer_dynamic_sequence_root(&hir.parsed);
    let dense_root = infer::infer_dense_source_root(&hir.parsed);
    let seq_ref: Option<&str> = match &seq_root {
        Some(x) => Some(x.as_str()),
        None => None,
    };
    let dense_ref: Option<&str> = match &dense_root {
        Some(x) => Some(x.as_str()),
        None => None,
    };
    let aliases = bindings::map_alias_roots(&hir.parsed, seq_ref, dense_ref);
    let host_bindings = bindings::collect_host_bindings(&hir.parsed, &aliases);
    let ghost p = h.parsed;
    assert(match seq_ref {
        Some(x) => Some(x@),
        None => None,
    } == seq_root_key(p));
    assert(bindings::bindings_model(host_bindings@) == module_bindings(p));
    let mut entries: Vec<SourceEntry> = Vec::new();
    assert(entry_paths(entries@) =~= leaf_paths(p, 0));
    let mut i: usize = 0;
    while i < hir.parsed.source_leaves.len()
        invariant
            i <= hir.parsed.source_leaves@.len(),
            tab_line(source@) is None,
            entries@.len() == i,
            forall|k: int| 0 <= k < i ==> (#[trigger] entries@[k]).id == k,
            forall|a: int, b: int| 0 <= a < b < i ==> entries@[a].path@ != entries@[b].path@,
            hir == h,
            p == h.parsed,
            ct == contracts@,
            crate::host_schema::is_contract_table(ct),
            crate::syntax::module::parse_result(name@, source@, h.parsed),
            lower_result(h),
            h.diagnostics@.len() == 0,
            forall|j: int| 0 <= j < p.module_calls@.len() ==> checks::refused_family((#[trigger] p.module_calls@[j]).path@) is None,
            match seq_ref {
                Some(x) => Some(x@),
                None => None,
            } == seq_root_key(p),
            bindings::bindings_model(host_bindings@) == module_bindings(p),
            entry_paths(entries@) == leaf_paths(p, i as int),
            forall|j: int| 0 <= j < i ==> !#[trigger] leaf_fails(p, ct, j),
            forall|j: int| 0 <= j < i ==> entry_ok(
                #[trigger] entries@[j],
                j,
                leaf_path(p, j),
                bindings::source_matches(leaf_path(p, j), module_bindings(p), ct)[0],
            ),
        decreases hir.parsed.source_leaves.len() - i,
    {
        let leaf = &hir.parsed.source_leaves[i];
        let entry = match source_entry(leaf, i, seq_ref, &host_bindings, &contracts, &entries) {
            Ok(e) => e,
            Err(e) => {
                let res: Result<CompiledModule, CompileError> = Err(e);
                assert(leaf_fails(p, ct, i as int));
                proof {
            reveal(compile_outcome);
        }
        assert(compile_outcome(name@, h, ct, res));
                return res;
            },
        };
        assert(!leaf_fails(p, ct, i as int));
        let ghost before = entries@;
        entries.push(entry);
        assert(entry_paths(entries@) =~= leaf_paths(p, i + 1));
        assert(forall|j: int| 0 <= j < i ==> entries@[j] == before[j]);
        proof {
            assert forall|a: int, b: int| 0 <= a < b < i + 1 implies entries@[a].path@ != entries@[b].path@ by {
                if b == i {
                    assert(entries@[a] == before[a]);
                }
            }
        }
        i = i + 1;
    }
    let ghost n = p.source_leaves@.len() as int;
    assert(forall|j: int| 0 <= j < n ==> !#[trigger] leaf_fails(p, ct, j));
    if !any_element_call(&hir.parsed) {
        let res = Err(CompileError::NoElementBindings { module: string_of(&chars_of(name)) });
        proof {
            reveal(compile_outcome);
        }
        assert(compile_outcome(name@, h, ct, res));
        return res;
    }
    let sources = SourceInventory { entries };
    proof {
        assert forall|x: Seq<char>| reads::backed(sources.entries@, x) == backed_by(leaf_paths(p, n), x) by {
            if reads::backed(sources.entries@, x) {
                let k = choose|k: int| 0 <= k < sources.entries@.len() && ((#[trigger] sources.entries@[k]).path@ == x
                    || has_prefix(sources.entries@[k].path@, x + "."@));
                assert(entry_paths(sources.entries@)[k] == sources.entries@[k].path@);
                assert(leaf_paths(p, n)[k] == sources.entries@[k].path@);
            }
            if backed_by(leaf_paths(p, n), x) {
                let k = choose|k: int| 0 <= k < leaf_paths(p, n).len() && ((#[trigger] leaf_paths(p, n)[k]) == x
                    || has_prefix(leaf_paths(p, n)[k], x + "."@));
                assert(entry_paths(sources.entries@)[k] == sources.entries@[k].path@);
            }
        }
    }
    match reads::validate_static_source_reads(&hir, &sources) {
        Ok(()) => {},
        Err(path) => {
            proof {
                let k = choose|k: int| 0 <= k < reads::module_reads(hir).len() && reads::module_reads(hir)[k] == path@;
                reads::lemma_reads_are_store_sources(hir, k);
            }
            let res = Err(CompileError::UnboundRead { path });
            proof {
            reveal(compile_outcome);
        }
        assert(compile_outcome(name@, h, ct, res));
            return res;
        },
    }
    let app_ir = app_ir::app_ir_from_hir(&hir, &sources);
    let executable_ir = exec_ir::executable_ir_from_hir(&hir, &sources);
    let program = metadata::app_metadata(name, &hir.parsed);
    assert(app_ir::app_ir_result(app_ir, hir, sources.entries@));
    assert(exec_ir::exec_ir_result(executable_ir, hir, sources.entries@));
    assert(metadata::metadata_result(program, name@, hir.parsed));
    let res = Ok(CompiledModule {
        name: string_of(&chars_of(name)),
        hir,
        sources,
        program,
        app_ir,
        executable_ir,
        provenance,
    });
    proof {
        reveal(compile_outcome);
    }
    assert(compile_outcome(name@, h, ct, res));
    res
}

} // verus!
