use boon::compiler::compile_source;
use boon::wiring::{
    dynamic_family_from_source_base, dynamic_family_root, source_base_from_path,
    RuntimeWiring,
};

const COUNTER: &str = r#"
store:
    sources:
        increment_button:
            event:
                press: SOURCE

counter:
    0 |> HOLD state {
        store.sources.increment_button.event.press
        |> THEN { state + 1 }
    }

document:
    Document/new(
        root:
            Element/button(element: store.sources.increment_button, label: TEXT { Increment })
    )
"#;

const CLOCK: &str = r#"
store:
    sources:
        clock:
            event:
                tick: SOURCE

elapsed:
    0 |> HOLD elapsed {
        store.sources.clock.event.tick |> THEN { elapsed + 1 }
    }

document:
    Document/new(
        root:
            Element/label(element: store.sources.clock)
    )
"#;

#[test]
fn counter_press_drives_the_counter_and_nothing_ticks() {
    let compiled = compile_source("counter", COUNTER).expect("counter compiles");
    let wiring = RuntimeWiring::from_compiled(
        &compiled.app_ir,
        &compiled.executable_ir,
        &compiled.sources,
    );
    assert_eq!(
        wiring.action_state.as_ref().map(|b| b.state_path.as_str()),
        Some("counter")
    );
    assert!(wiring.clock_state.is_none());
    assert!(wiring.list.is_none());
    assert!(wiring.indexed.is_none());
}

#[test]
fn clock_tick_drives_the_clock_state_only() {
    let compiled = compile_source("clock", CLOCK).expect("clock compiles");
    let wiring = RuntimeWiring::from_compiled(
        &compiled.app_ir,
        &compiled.executable_ir,
        &compiled.sources,
    );
    assert_eq!(
        wiring.clock_state.as_ref().map(|b| b.state_path.as_str()),
        Some("elapsed")
    );
    assert!(wiring.action_state.is_none());
}

#[test]
fn source_base_strips_the_first_known_leaf() {
    assert_eq!(
        source_base_from_path("store.sources.input.text").as_deref(),
        Some("store.sources.input")
    );
    assert_eq!(
        source_base_from_path("store.sources.clock.event.tick").as_deref(),
        Some("store.sources.clock")
    );
    assert_eq!(
        source_base_from_path("todos[*].sources.editor.event.key_down.key").as_deref(),
        Some("todos[*].sources.editor")
    );
    assert_eq!(source_base_from_path("store.sources.button.event.unknown"), None);
}

#[test]
fn dynamic_family_root_is_the_last_segment_without_the_marker() {
    assert_eq!(dynamic_family_root("store.todos[*]"), "todos");
    assert_eq!(dynamic_family_root("cells[*]"), "cells");
    assert_eq!(dynamic_family_root("plain"), "plain");
}

#[test]
fn dynamic_family_needs_a_marker_before_the_sources() {
    assert_eq!(
        dynamic_family_from_source_base("store.todos[*].sources.editor").as_deref(),
        Some("store.todos[*]")
    );
    assert_eq!(dynamic_family_from_source_base("store.sources.editor"), None);
    assert_eq!(dynamic_family_from_source_base("todos[*].editor"), None);
}
