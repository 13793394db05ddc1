use boon::hir::{lower, HirFeature};
use boon::syntax::parse_module;

#[test]
fn lower_exposes_core_language_features() {
    let source = r#"
store:
    sources:
        input:
            text: SOURCE
            event:
                key_down:
                    key: SOURCE

FUNCTION make_item(title) {
    [
        title: title
    ]
}

title_to_add:
    store.sources.input.event.key_down.key
    |> WHEN {
        Enter => BLOCK {
            trimmed: store.sources.input.text |> Text/trim()
            trimmed |> Text/is_not_empty() |> WHEN { True => trimmed False => SKIP }
        }
        __ => SKIP
    }

branch:
    title_to_add
    |> WHILE {
        __ => TEXT { fallback }
    }

items:
    LIST {
        make_item(title: TEXT { First })
    }
    |> List/append(item: title_to_add |> make_item(title: PASSED))
    |> List/remove(item, on: item.sources.remove_button.event.press)
"#;
    let parsed = match parse_module("fixture", source) {
        Ok(p) => p,
        Err(_) => panic!("fixture parses"),
    };
    let hir = lower(parsed);
    for feature in [
        HirFeature::Source,
        HirFeature::FunctionDefinition,
        HirFeature::Pipeline,
        HirFeature::When,
        HirFeature::While,
        HirFeature::Block,
        HirFeature::ListLiteral,
        HirFeature::ListAppend,
        HirFeature::ListRemove,
        HirFeature::FunctionCall,
    ] {
        assert!(
            hir.features.contains(&feature),
            "missing HIR feature {feature:?}: {:#?}",
            hir.features
        );
    }
}

#[test]
fn raw_syntax_and_unknown_operations_are_reported() {
    let parsed = match parse_module("m", "bad:\n    state ?? 1\nitems:\n    LIST {}\n    |> List/State/new()\n") {
        Ok(p) => p,
        Err(_) => panic!("parses"),
    };
    let hir = lower(parsed);
    assert!(hir.diagnostics.iter().any(|d| d.message.starts_with("expression kept as raw syntax: ")));
    assert!(hir.diagnostics.iter().any(|d| d.message == "unsupported List operation `List/State/new`"));
}

#[test]
fn features_come_in_declaration_order_without_repeats() {
    let parsed = match parse_module("m", "a:\n    x |> List/count()\nb:\n    y |> List/count()\n") {
        Ok(p) => p,
        Err(_) => panic!("parses"),
    };
    let hir = lower(parsed);
    assert_eq!(hir.features, vec![HirFeature::ListCount, HirFeature::Pipeline]);
    assert!(hir.diagnostics.is_empty());
}
