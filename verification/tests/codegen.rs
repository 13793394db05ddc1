use boon::codegen::{
    app_ir_expr, exec_expr_expr, executable_ir_expr, ir_app_metadata_expr, ir_effect_expr,
    ir_render_node_expr, ir_static_value_expr, option_expr, option_string_expr,
    owned_string_expr, rust_string_literal, shape_expr, source_entry_expr,
    source_inventory_expr, source_owner_expr, vec_expr,
};
use boon::compiler::{
    compile_source, ExecCallArg, ExecExpr, ExecWhenArm, IrAppMetadata, IrCollectionValueExpr,
    IrEffect, IrRenderKind, IrRenderNode, IrRenderText, IrStaticField, IrStaticValue,
};
use boon::shape::Shape;
use boon::source::{SourceEntry, SourceOwner};

const COUNTER: &str = r#"
store:
    sources:
        increment_button:
            event:
                press: SOURCE

counter:
    0 |> HOLD state {
        store.sources.increment_button.event.press
        |> THEN { state + 1 }
    }

document:
    Document/new(
        root:
            Element/button(element: store.sources.increment_button, label: TEXT { Increment })
    )
"#;

#[test]
fn string_literals_are_debug_quoted() {
    assert_eq!(rust_string_literal("a\"b"), "\"a\\\"b\"");
    assert_eq!(owned_string_expr("x"), "\"x\".to_string()");
}

#[test]
fn vectors_and_options() {
    assert_eq!(vec_expr(&[]), "Vec::new()");
    assert_eq!(vec_expr(&["1".to_string()]), "vec![1]");
    assert_eq!(vec_expr(&["1".to_string(), "2".to_string(), "3".to_string()]), "vec![1, 2, 3]");
    assert_eq!(option_expr(None), "None");
    assert_eq!(option_expr(Some("7".to_string())), "Some(7)");
    assert_eq!(option_string_expr(Some("t")), "Some(\"t\".to_string())");
    assert_eq!(option_string_expr(None), "None");
}

#[test]
fn shapes_nest() {
    let shape = Shape::Union(vec![
        Shape::Text,
        Shape::TagSet(vec!["A".to_string()]),
        Shape::Record(vec![("k".to_string(), Shape::List(Box::new(Shape::Number)))]),
    ]);
    assert_eq!(
        shape_expr(&shape),
        "Shape::Union(vec![Shape::Text, Shape::TagSet(vec![\"A\".to_string()]), \
         Shape::Record(vec![(\"k\".to_string(), Shape::List(Box::new(Shape::Number)))])])"
    );
    assert_eq!(shape_expr(&Shape::Record(Vec::new())), "Shape::Record(Vec::new())");
}

#[test]
fn source_entries_and_owners() {
    assert_eq!(source_owner_expr(&SourceOwner::Static), "SourceOwner::Static");
    assert_eq!(
        source_owner_expr(&SourceOwner::DynamicFamily { owner_path: "todos".to_string() }),
        "SourceOwner::DynamicFamily { owner_path: \"todos\".to_string() }"
    );
    let entry = SourceEntry {
        id: 3,
        path: "store.sources.b.event.press".to_string(),
        shape: Shape::EmptyRecord,
        producer: "Element/button".to_string(),
        readers: vec!["counter".to_string()],
        owner: SourceOwner::Static,
    };
    assert_eq!(
        source_entry_expr(&entry),
        "SourceEntry { id: 3, path: \"store.sources.b.event.press\".to_string(), shape: Shape::EmptyRecord, \
         producer: \"Element/button\".to_string(), readers: vec![\"counter\".to_string()], owner: SourceOwner::Static }"
    );
}

#[test]
fn executable_expressions_nest() {
    let expr = ExecExpr::Call {
        path: "Number/min".to_string(),
        args: vec![
            ExecCallArg { name: "left".to_string(), value: ExecExpr::Number { value: -2 } },
            ExecCallArg {
                name: "right".to_string(),
                value: ExecExpr::Add {
                    left: Box::new(ExecExpr::State { path: "x".to_string() }),
                    right: Box::new(ExecExpr::Bool { value: true }),
                },
            },
        ],
    };
    assert_eq!(
        exec_expr_expr(&expr),
        "ExecExpr::Call { path: \"Number/min\".to_string(), args: vec![\
         ExecCallArg { name: \"left\".to_string(), value: ExecExpr::Number { value: -2 } }, \
         ExecCallArg { name: \"right\".to_string(), value: ExecExpr::Add { left: Box::new(ExecExpr::State { path: \"x\".to_string() }), \
         right: Box::new(ExecExpr::Bool { value: true }) } }] }"
    );
    let when = ExecExpr::When {
        arms: vec![ExecWhenArm { pattern: "__".to_string(), value: ExecExpr::Skip }],
    };
    assert_eq!(
        exec_expr_expr(&when),
        "ExecExpr::When { arms: vec![ExecWhenArm { pattern: \"__\".to_string(), value: ExecExpr::Skip }] }"
    );
}

#[test]
fn static_values_and_effects() {
    let value = IrStaticValue::Record {
        fields: vec![IrStaticField {
            key: "r".to_string(),
            value: IrStaticValue::List { items: vec![IrStaticValue::Range { from: 1, to: 3 }] },
        }],
    };
    assert_eq!(
        ir_static_value_expr(&value),
        "IrStaticValue::Record { fields: vec![IrStaticField { key: \"r\".to_string(), value: \
         IrStaticValue::List { items: vec![IrStaticValue::Range { from: 1, to: 3 }] } }] }"
    );
    let effect = IrEffect::CollectionUpdateAllFields {
        collection_path: "todos".to_string(),
        field: "completed".to_string(),
        value: IrCollectionValueExpr::NotAllBoolField { field: "completed".to_string() },
    };
    assert_eq!(
        ir_effect_expr(&effect),
        "IrEffect::CollectionUpdateAllFields { collection_path: \"todos\".to_string(), field: \"completed\".to_string(), \
         value: IrCollectionValueExpr::NotAllBoolField { field: \"completed\".to_string() } }"
    );
}

#[test]
fn render_nodes_and_metadata() {
    let node = IrRenderNode {
        id: "root".to_string(),
        kind: IrRenderKind::Root,
        source_path: None,
        collection_path: None,
        text: None,
        children: vec![IrRenderNode {
            id: "t".to_string(),
            kind: IrRenderKind::Text,
            source_path: Some("s".to_string()),
            collection_path: None,
            text: Some(IrRenderText::Literal { value: "hi".to_string() }),
            children: Vec::new(),
        }],
    };
    assert_eq!(
        ir_render_node_expr(&node),
        "IrRenderNode { id: \"root\".to_string(), kind: IrRenderKind::Root, source_path: None, collection_path: None, \
         text: None, children: vec![IrRenderNode { id: \"t\".to_string(), kind: IrRenderKind::Text, \
         source_path: Some(\"s\".to_string()), collection_path: None, \
         text: Some(IrRenderText::Literal { value: \"hi\".to_string() }), children: Vec::new() }] }"
    );
    let meta = IrAppMetadata { title: "T".to_string(), primary_label: None, physical_debug: false };
    assert_eq!(
        ir_app_metadata_expr(&meta),
        "IrAppMetadata { title: \"T\".to_string(), primary_label: None, physical_debug: false }"
    );
}

#[test]
fn compiled_counter_renders_to_rust() {
    let compiled = compile_source("counter", COUNTER).expect("counter compiles");
    let app = app_ir_expr(&compiled.app_ir);
    assert!(app.starts_with(
        "AppIr { state_cells: vec![IrStateCell { path: \"counter\".to_string(), initial: IrValueExpr::Number { value: 0 } }]"
    ));
    let exec = executable_ir_expr(&compiled.executable_ir);
    assert!(exec.starts_with("ExecutableIr { state_slots: vec![ExecStateSlot { path: \"counter\".to_string()"));
    let inventory = source_inventory_expr(&compiled.sources);
    assert!(inventory.starts_with("SourceInventory { entries: vec![SourceEntry { id: "));
    assert!(inventory.contains("\"store.sources.increment_button.event.press\".to_string()"));
}
