//! The Boon surface syntax: source lines, record trees and expression ASTs.
use vstd::prelude::*;

pub mod scan;
pub mod expr;
pub mod records;
pub mod collect;
pub mod ast;
pub mod module;

pub use module::parse_module;

verus! {

#[derive(Clone, Copy, Debug)]
pub struct Span {
    pub line: usize,
    pub column: usize,
}

#[derive(Debug)]
pub struct SourceLeaf {
    pub path: String,
    pub span: Span,
}

#[derive(Debug)]
pub struct ModuleCall {
    pub path: String,
    pub span: Span,
    pub args: Vec<CallArg>,
}

#[derive(Debug)]
pub struct CallArg {
    pub name: String,
    pub value: String,
    pub span: Span,
}

#[derive(Debug)]
pub struct TextLiteral {
    pub value: String,
    pub span: Span,
}

#[derive(Debug)]
pub struct StateStep {
    pub state: String,
    pub amount: i64,
    pub span: Span,
}

#[derive(Debug)]
pub struct MapBinding {
    pub variable: String,
    pub collection: String,
    pub span: Span,
}

#[derive(Debug)]
pub struct ParsedLine {
    pub text: String,
    pub span: Span,
}

#[derive(Debug)]
pub struct ParsedRecordEntry {
    pub key: String,
    pub value: Option<String>,
    pub span: Span,
    pub children: Vec<ParsedRecordEntry>,
}

#[derive(Debug)]
pub struct ParsedModule {
    pub name: String,
    pub ast: AstModule,
    pub lines: Vec<ParsedLine>,
    pub records: Vec<ParsedRecordEntry>,
    pub source_leaves: Vec<SourceLeaf>,
    pub module_calls: Vec<ModuleCall>,
    pub text_literals: Vec<TextLiteral>,
    pub state_steps: Vec<StateStep>,
    pub map_bindings: Vec<MapBinding>,
}

#[derive(Debug)]
pub enum ParseError {
    TabIndent { line: usize },
}

#[derive(Debug)]
pub struct AstModule {
    pub name: String,
    pub items: Vec<AstItem>,
}

#[derive(Debug)]
pub enum AstItem {
    Record(AstRecord),
    Function(AstFunction),
    Expression(AstExpr),
}

#[derive(Debug)]
pub struct AstRecord {
    pub key: String,
    pub value: Option<AstExpr>,
    pub span: Span,
    pub children: Vec<AstRecord>,
}

#[derive(Debug)]
pub struct AstFunction {
    pub name: String,
    pub params: Vec<String>,
    pub body: AstExpr,
    pub span: Span,
}

#[derive(Debug)]
pub struct AstExpr {
    pub kind: AstExprKind,
    pub span: Span,
    pub raw: String,
}

#[derive(Debug)]
pub enum AstExprKind {
    Source,
    Number { value: i64 },
    Bool { value: bool },
    Tag { value: String },
    Text { value: String },
    Path { value: String },
    Passed,
    Skip,
    Record { entries: Vec<AstRecord> },
    List { items: Vec<AstExpr> },
    Block { bindings: Vec<AstBinding> },
    When { arms: Vec<AstWhenArm> },
    While { arms: Vec<AstWhenArm> },
    Then { body: Box<AstExpr> },
    Hold { state: String, body: Box<AstExpr> },
    Latest { branches: Vec<AstExpr> },
    Call { path: String, args: Vec<AstCallArg> },
    Pipeline { input: Box<AstExpr>, stages: Vec<AstExpr> },
    Binary { op: AstBinaryOp, left: Box<AstExpr>, right: Box<AstExpr> },
    Raw,
}

#[derive(Debug)]
pub struct AstBinding {
    pub name: String,
    pub value: AstExpr,
    pub span: Span,
}

#[derive(Debug)]
pub struct AstCallArg {
    pub name: String,
    pub value: AstExpr,
    pub span: Span,
}

#[derive(Debug)]
pub struct AstWhenArm {
    pub pattern: String,
    pub value: AstExpr,
    pub span: Span,
}

#[derive(Clone, Copy, Debug)]
pub enum AstBinaryOp {
    Add,
    Subtract,
    Equal,
}

} // verus!
