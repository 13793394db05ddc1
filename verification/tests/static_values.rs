use boon::compiler::{
    AppIr, ExecExpr, IrEffect, IrEventHandler, IrStaticField, IrStaticRecord, IrStaticValue,
};
use boon::static_values::{
    collect_static_text_values, record_filter_set_from_app_ir, static_record_value_field,
    RecordFilterPredicate,
};
use boon::wiring::{selector_state_path, selfless_eval_exec_number};

fn field(key: &str, value: IrStaticValue) -> IrStaticField {
    IrStaticField { key: key.to_string(), value }
}

fn text(value: &str) -> IrStaticValue {
    IrStaticValue::Text { value: value.to_string() }
}

fn app(static_records: Vec<IrStaticRecord>, event_handlers: Vec<IrEventHandler>) -> AppIr {
    AppIr {
        state_cells: Vec::new(),
        collection_states: Vec::new(),
        static_records,
        event_handlers,
        render_tree: None,
    }
}

#[test]
fn static_texts_are_collected_in_order_through_records_and_lists() {
    let fields = vec![
        field("title", text("Todos")),
        field(
            "meta",
            IrStaticValue::Record {
                fields: vec![
                    field("empty", text("")),
                    field(
                        "items",
                        IrStaticValue::List {
                            items: vec![
                                text("x"),
                                IrStaticValue::Number { value: 1 },
                                IrStaticValue::Record { fields: vec![field("c", text("y"))] },
                            ],
                        },
                    ),
                ],
            },
        ),
        field("flag", IrStaticValue::Bool { value: true }),
    ];
    let mut lines = vec!["before".to_string()];
    collect_static_text_values(&fields, &mut lines);
    assert_eq!(lines, vec!["before", "Todos", "x", "y"]);
}

#[test]
fn field_lookup_takes_the_first_match() {
    let fields = vec![field("a", text("1")), field("a", text("2"))];
    match static_record_value_field(&fields, "a") {
        Some(IrStaticValue::Text { value }) => assert_eq!(value, "1"),
        other => panic!("unexpected {other:?}"),
    }
    assert!(static_record_value_field(&fields, "b").is_none());
}

#[test]
fn filter_set_reads_the_selectors_record() {
    let selectors = IrStaticValue::Record {
        fields: vec![
            field(
                "all",
                IrStaticValue::Record {
                    fields: vec![field("predicate", IrStaticValue::Tag { value: "All".to_string() })],
                },
            ),
            field(
                "active",
                IrStaticValue::Record {
                    fields: vec![field(
                        "predicate",
                        IrStaticValue::Record {
                            fields: vec![
                                field("field", IrStaticValue::Path { value: "completed".to_string() }),
                                field("equals", IrStaticValue::Bool { value: false }),
                            ],
                        },
                    )],
                },
            ),
            field("bare", text("no predicate")),
        ],
    };
    let records = vec![
        IrStaticRecord { path: "theme".to_string(), fields: vec![field("color", text("red"))] },
        IrStaticRecord { path: "view".to_string(), fields: vec![field("selectors", selectors)] },
    ];
    let set = record_filter_set_from_app_ir(&app(records, Vec::new())).expect("selectors found");
    assert_eq!(set.selectors.len(), 3);
    assert_eq!(set.selectors[0].id, "all");
    assert!(matches!(set.selectors[0].predicate, RecordFilterPredicate::All));
    assert_eq!(set.selectors[1].id, "active");
    match &set.selectors[1].predicate {
        RecordFilterPredicate::FieldBoolEquals { field, value } => {
            assert_eq!(field, "completed");
            assert!(!*value);
        }
        other => panic!("unexpected {other:?}"),
    }
    assert!(matches!(set.selectors[2].predicate, RecordFilterPredicate::All));
}

#[test]
fn no_selectors_record_gives_no_filter_set() {
    let records = vec![IrStaticRecord {
        path: "view".to_string(),
        fields: vec![field("selectors", text("not a record"))],
    }];
    assert!(record_filter_set_from_app_ir(&app(records, Vec::new())).is_none());
}

#[test]
fn selector_state_is_the_first_tag_state_set() {
    let handlers = vec![
        IrEventHandler {
            source_path: "store.sources.a.event.press".to_string(),
            when: None,
            effects: vec![IrEffect::ClearText { text_state_path: "draft".to_string() }],
        },
        IrEventHandler {
            source_path: "store.sources.b.event.press".to_string(),
            when: None,
            effects: vec![IrEffect::SetTagState {
                state_path: "view_selector".to_string(),
                value: "active".to_string(),
            }],
        },
    ];
    assert_eq!(
        selector_state_path(&app(Vec::new(), handlers)).as_deref(),
        Some("view_selector")
    );
    assert!(selector_state_path(&app(Vec::new(), Vec::new())).is_none());
}

#[test]
fn slot_initial_value_must_be_a_number() {
    assert_eq!(selfless_eval_exec_number(&ExecExpr::Number { value: 7 }), Ok(7));
    assert_eq!(
        selfless_eval_exec_number(&ExecExpr::Text { value: "x".to_string() }),
        Err("executable state slot initial value must be a number".to_string())
    );
}
