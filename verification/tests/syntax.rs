use boon::syntax::{parse_module, AstExpr, AstExprKind, AstItem, AstModule, AstRecord, ParseError};

fn contains_expr(module: &AstModule, predicate: impl Fn(&AstExpr) -> bool) -> bool {
    module.items.iter().any(|item| match item {
        AstItem::Record(record) => record_contains_expr(record, &predicate),
        AstItem::Function(function) => expr_contains(&function.body, &predicate),
        AstItem::Expression(expr) => expr_contains(expr, &predicate),
    })
}

fn record_contains_expr(record: &AstRecord, predicate: &impl Fn(&AstExpr) -> bool) -> bool {
    record
        .value
        .as_ref()
        .is_some_and(|expr| expr_contains(expr, predicate))
        || record
            .children
            .iter()
            .any(|child| record_contains_expr(child, predicate))
}

fn expr_contains(expr: &AstExpr, predicate: &impl Fn(&AstExpr) -> bool) -> bool {
    if predicate(expr) {
        return true;
    }
    match &expr.kind {
        AstExprKind::Record { entries } => entries
            .iter()
            .any(|entry| record_contains_expr(entry, predicate)),
        AstExprKind::List { items } => items.iter().any(|item| expr_contains(item, predicate)),
        AstExprKind::Block { bindings } => bindings
            .iter()
            .any(|binding| expr_contains(&binding.value, predicate)),
        AstExprKind::When { arms } | AstExprKind::While { arms } => {
            arms.iter().any(|arm| expr_contains(&arm.value, predicate))
        }
        AstExprKind::Then { body } | AstExprKind::Hold { body, .. } => {
            expr_contains(body, predicate)
        }
        AstExprKind::Latest { branches } => branches
            .iter()
            .any(|branch| expr_contains(branch, predicate)),
        AstExprKind::Call { args, .. } => {
            args.iter().any(|arg| expr_contains(&arg.value, predicate))
        }
        AstExprKind::Pipeline { input, stages } => {
            expr_contains(input, predicate)
                || stages.iter().any(|stage| expr_contains(stage, predicate))
        }
        AstExprKind::Binary { left, right, .. } => {
            expr_contains(left, predicate) || expr_contains(right, predicate)
        }
        AstExprKind::Source
        | AstExprKind::Number { .. }
        | AstExprKind::Bool { .. }
        | AstExprKind::Tag { .. }
        | AstExprKind::Text { .. }
        | AstExprKind::Path { .. }
        | AstExprKind::Passed
        | AstExprKind::Skip
        | AstExprKind::Raw => false,
    }
}

#[test]
fn parses_core_ast_constructs_from_source() {
    let parsed = match parse_module(
        "fixture",
        r#"
store:
    sources:
        button:
            event:
                press: SOURCE

FUNCTION build(title) {
    [
        title: title
    ]
}

counter:
    0 |> HOLD state {
        store.sources.button.event.press
        |> THEN { state + 1 }
    }

title:
    store.sources.button.event.press
    |> WHEN {
        Enter => BLOCK {
            label: TEXT { ok }
        }
        __ => SKIP
    }

items:
    LIST {
        build(title: TEXT { First })
    }
    |> List/map(item, new: item)
"#,
    ) {
        Ok(parsed) => parsed,
        Err(_) => panic!("fixture parses"),
    };

    assert!(parsed
        .ast
        .items
        .iter()
        .any(|item| matches!(item, AstItem::Function(function) if function.name == "build")));
    assert!(
        contains_expr(&parsed.ast, |expr| matches!(expr.kind, AstExprKind::Source)),
        "SOURCE should be represented in AST"
    );
    assert!(
        contains_expr(&parsed.ast, |expr| matches!(expr.kind, AstExprKind::Hold { .. })),
        "HOLD should be represented in AST"
    );
    assert!(
        contains_expr(&parsed.ast, |expr| matches!(expr.kind, AstExprKind::Then { .. })),
        "THEN should be represented in AST"
    );
    assert!(
        contains_expr(&parsed.ast, |expr| matches!(expr.kind, AstExprKind::When { .. })),
        "WHEN should be represented in AST"
    );
    assert!(
        contains_expr(&parsed.ast, |expr| matches!(expr.kind, AstExprKind::Block { .. })),
        "BLOCK should be represented in AST"
    );
    assert!(
        contains_expr(&parsed.ast, |expr| matches!(expr.kind, AstExprKind::List { .. })),
        "LIST should be represented in AST"
    );
    assert!(
        contains_expr(&parsed.ast, |expr| {
            matches!(&expr.kind, AstExprKind::Call { path, .. } if path == "List/map")
        }),
        "List/map should be represented as a call in AST"
    );
}

#[test]
fn tab_indented_line_is_refused_with_its_number() {
    let err = parse_module("tabs", "a: 1\n\tb: 2\n\tc: 3\n").err();
    assert!(matches!(err, Some(ParseError::TabIndent { line: 2 })));
}

#[test]
fn records_sources_and_spans_are_collected() {
    let parsed = match parse_module("m", "store:\n    sources:\n        button:\n            event:\n                press: SOURCE\n") {
        Ok(p) => p,
        Err(_) => panic!("parses"),
    };
    assert_eq!(parsed.name, "m");
    assert_eq!(parsed.lines.len(), 5);
    assert_eq!(parsed.lines[1].text, "sources:");
    assert_eq!(parsed.lines[1].span.line, 2);
    assert_eq!(parsed.lines[1].span.column, 5);
    assert_eq!(parsed.source_leaves.len(), 1);
    assert_eq!(parsed.source_leaves[0].path, "store.sources.button.event.press");
    assert_eq!(parsed.source_leaves[0].span.line, 5);
    assert_eq!(parsed.source_leaves[0].span.column, 24);
    assert_eq!(parsed.records.len(), 1);
    assert_eq!(parsed.records[0].key, "store");
    assert_eq!(parsed.records[0].children[0].children[0].key, "button");
}

#[test]
fn module_calls_text_literals_steps_and_map_bindings() {
    let parsed = match parse_module(
        "m",
        "doc:\n    Element/button(element: store.sources.b, label: TEXT { Go })\nn:\n    state + 1\nitems:\n    list |> List/map(item, new: item)\n",
    ) {
        Ok(p) => p,
        Err(_) => panic!("parses"),
    };
    assert_eq!(parsed.module_calls[0].path, "Element/button");
    assert_eq!(parsed.module_calls[0].args[0].name, "element");
    assert_eq!(parsed.module_calls[0].args[0].value, "store.sources.b");
    assert_eq!(parsed.text_literals[0].value, "Go");
    assert_eq!(parsed.state_steps[0].state, "state");
    assert_eq!(parsed.state_steps[0].amount, 1);
    assert_eq!(parsed.map_bindings[0].variable, "item");
    assert_eq!(parsed.map_bindings[0].collection, "list");
}
