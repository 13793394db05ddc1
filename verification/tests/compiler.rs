use boon::compiler::compile_source;

#[test]
fn source_without_host_binding_is_a_compile_error() {
    let err = compile_source(
        "bad",
        r#"
store:
    sources:
        button:
            event:
                press: SOURCE
"#,
    )
    .expect_err("unbound SOURCE should fail");

    assert!(
        err.to_string()
            .contains("has no statically provable Element binding"),
        "unexpected error: {err:?}"
    );
}

#[test]
fn source_with_multiple_live_producers_is_a_compile_error() {
    let err = compile_source(
        "bad",
        r#"
store:
    sources:
        button:
            event:
                press: SOURCE

document:
    Document/new(
        root:
            Element/panel(
                children:
                    LIST {
                        Element/button(element: store.sources.button)
                        Element/button(element: store.sources.button)
                    }
            )
    )
"#,
    )
    .expect_err("duplicate source producer should fail");

    assert!(
        err.to_string()
            .contains("is bound by more than one Element producer"),
        "unexpected error: {err:?}"
    );
}

#[test]
fn source_bound_to_incompatible_element_contract_is_a_compile_error() {
    let err = compile_source(
        "bad",
        r#"
store:
    sources:
        input:
            text: SOURCE

document:
    Document/new(
        root:
            Element/button(element: store.sources.input)
    )
"#,
    )
    .expect_err("incompatible source binding should fail");

    assert!(
        err.to_string()
            .contains("has no statically provable Element binding"),
        "unexpected error: {err:?}"
    );
}

#[test]
fn source_path_read_without_bound_producer_is_a_compile_error() {
    let err = compile_source(
        "bad",
        r#"
store:
    sources:
        increment_button:
            event:
                press: SOURCE

counter:
    0 |> HOLD state {
        store.sources.increment_buton.event.press
        |> THEN { state + 1 }
    }

document:
    Document/new(
        root:
            Element/button(element: store.sources.increment_button)
    )
"#,
    )
    .expect_err("typo-like source read should fail");

    assert!(
        err.to_string().contains(
            "source path `store.sources.increment_buton.event.press` is read but no host/runtime producer is bound"
        ),
        "unexpected error: {err:?}"
    );
}

#[test]
fn unsupported_raw_expression_is_a_compile_error() {
    let err = compile_source(
        "bad",
        r#"
store:
    sources:
        button:
            event:
                press: SOURCE

bad_expression:
    state ?? 1

document:
    Document/new(
        root:
            Element/button(element: store.sources.button)
    )
"#,
    )
    .expect_err("unsupported raw syntax should fail");

    assert!(
        err.to_string().contains("unsupported Boon syntax"),
        "unexpected error: {err:?}"
    );
}

#[test]
fn unsupported_list_operation_is_a_compile_error() {
    let err = compile_source(
        "bad",
        r#"
store:
    sources:
        button:
            event:
                press: SOURCE

items:
    LIST {}
    |> List/State/new()

document:
    Document/new(
        root:
            Element/button(element: store.sources.button)
    )
"#,
    )
    .expect_err("unsupported List/* operation should fail");

    assert!(
        err.to_string()
            .contains("unsupported List operation `List/State/new`"),
        "unexpected error: {err:?}"
    );
}

#[test]
fn unsupported_math_operation_is_a_compile_error() {
    let err = compile_source(
        "bad",
        r#"
store:
    sources:
        button:
            event:
                press: SOURCE

formulas:
    functions:
        mean: Math/mean

document:
    Document/new(
        root:
            Element/button(element: store.sources.button)
    )
"#,
    )
    .expect_err("unsupported Math/* operation should fail");

    assert!(
        err.to_string()
            .contains("unsupported Math operation `Math/mean`"),
        "unexpected error: {err:?}"
    );
}

const COUNTER: &str = r#"
store:
    sources:
        increment_button:
            event:
                press: SOURCE

counter:
    0 |> HOLD state {
        store.sources.increment_button.event.press
        |> THEN { state + 1 }
    }

document:
    Document/new(
        root:
            Element/button(element: store.sources.increment_button, label: TEXT { Increment })
    )
"#;

#[test]
fn counter_compiles_to_one_state_cell_and_one_handler() {
    let compiled = compile_source("my_counter", COUNTER).expect("counter compiles");
    assert!(compiled.hir.diagnostics.is_empty());
    assert_eq!(compiled.sources.entries.len(), 1);
    let entry = &compiled.sources.entries[0];
    assert_eq!(entry.id, 0);
    assert_eq!(entry.path, "store.sources.increment_button.event.press");
    assert_eq!(entry.producer, "Element/button(element.event.press)");
    assert_eq!(entry.readers, vec!["compiled logic".to_string()]);
    assert_eq!(compiled.app_ir.state_cells.len(), 1);
    assert_eq!(compiled.app_ir.state_cells[0].path, "counter");
    assert_eq!(compiled.app_ir.event_handlers.len(), 1);
    assert_eq!(
        compiled.app_ir.event_handlers[0].source_path,
        "store.sources.increment_button.event.press"
    );
    assert_eq!(compiled.executable_ir.state_slots.len(), 1);
    assert_eq!(compiled.executable_ir.state_slots[0].path, "counter");
    assert_eq!(compiled.executable_ir.source_handlers.len(), 1);
    assert_eq!(compiled.program.title, "my counter");
    let tree = compiled.app_ir.render_tree.as_ref().expect("render tree");
    assert_eq!(tree.id, "root_0");
    assert_eq!(tree.children.len(), 1);
    assert_eq!(tree.children[0].id, "button_1");
    assert_eq!(
        tree.children[0].source_path.as_deref(),
        Some("store.sources.increment_button")
    );
}

#[test]
fn provenance_digests_the_source_and_lists_spans() {
    let compiled = compile_source("counter", COUNTER).expect("counter compiles");
    let p = &compiled.provenance;
    assert_eq!(p.source_sha256.len(), 64);
    assert!(p.source_sha256.chars().all(|c| c.is_ascii_hexdigit() && !c.is_ascii_uppercase()));
    assert_eq!(p.source_spans[0].kind, "SOURCE");
    assert_eq!(p.source_spans[0].path, "store.sources.increment_button.event.press");
    assert!(p.source_spans.iter().any(|s| s.kind == "module_call" && s.path == "Document/new"));
    let empty = compile_source("x", "").expect_err("no element bindings");
    assert!(empty.to_string().contains("has SOURCE leaves but no Element/* host bindings"));
}

#[test]
fn sha256_of_known_text_matches() {
    let compiled = compile_source("counter", COUNTER).expect("counter compiles");
    let again = compile_source("other_name", COUNTER).expect("counter compiles");
    assert_eq!(compiled.provenance.source_sha256, again.provenance.source_sha256);
    assert_ne!(compiled.provenance.source_sha256, "");
}

#[test]
fn tab_indentation_is_a_parse_error() {
    let err = compile_source("bad", "store:\n\tsources: 1\n").expect_err("tabs refused");
    assert_eq!(
        err.to_string(),
        "invalid indentation at line 2: tabs are not allowed"
    );
}

#[test]
fn duplicate_source_paths_are_refused() {
    let err = compile_source(
        "bad",
        r#"
store:
    sources:
        button:
            event:
                press: SOURCE
        button:
            event:
                press: SOURCE

document:
    Document/new(
        root:
            Element/button(element: store.sources.button)
    )
"#,
    )
    .expect_err("duplicate SOURCE");
    assert!(err.to_string().contains("is declared more than once"), "{err:?}");
}

#[test]
fn unknown_geometry_call_is_refused_with_its_position() {
    let err = compile_source(
        "bad",
        r#"
store:
    sources:
        button:
            event:
                press: SOURCE

x:
    Geometry/warp(a: 1)

document:
    Document/new(
        root:
            Element/button(element: store.sources.button)
    )
"#,
    )
    .expect_err("unknown Geometry call");
    let text = err.to_string();
    assert!(text.starts_with("unsupported Geometry operation `Geometry/warp` at line 9"), "{text}");
}
