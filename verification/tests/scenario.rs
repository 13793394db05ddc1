use boon::runtime::SourceValue;
use boon::scenario::{core_scenario_steps, timing_mutation_steps, todo_fill_batches, ScenarioStep};

fn text_of(step: &ScenarioStep, update: bool) -> String {
    match step {
        ScenarioStep::Dispatch(b) => {
            let e = if update { &b.state_updates[0] } else { &b.events[0] };
            match &e.value {
                SourceValue::Text(t) => t.clone(),
                other => panic!("unexpected {other:?}"),
            }
        }
        other => panic!("unexpected {other:?}"),
    }
}

#[test]
fn counter_scenario_presses_ten_times() {
    let steps = core_scenario_steps("counter").expect("known");
    assert_eq!(steps.len(), 10);
    match &steps[9] {
        ScenarioStep::Dispatch(b) => {
            assert_eq!(b.events[0].path, "store.sources.increment_button.event.press");
        }
        other => panic!("unexpected {other:?}"),
    }
}

#[test]
fn interval_scenario_waits_three_seconds() {
    let steps = core_scenario_steps("interval_hold").expect("known");
    assert!(matches!(steps[..], [ScenarioStep::AdvanceTime { millis: 3000 }]));
}

#[test]
fn unknown_scenario_is_an_error() {
    assert_eq!(
        core_scenario_steps("nope").unwrap_err(),
        "unknown browser scenario example `nope`"
    );
}

#[test]
fn todo_timing_steps_grow_then_fill() {
    let steps = timing_mutation_steps("todo_mvc");
    assert_eq!(steps.len(), 176);
    assert_eq!(text_of(&steps[0], true), "x");
    assert_eq!(text_of(&steps[104], true).len(), 105);
    assert!(matches!(steps[105], ScenarioStep::FillTodos { target: 100 }));
    match &steps[140] {
        ScenarioStep::Dispatch(b) => assert_eq!(b.events[0].owner_id.as_deref(), Some("35")),
        other => panic!("unexpected {other:?}"),
    }
    assert!(timing_mutation_steps("counter").is_empty());
}

#[test]
fn cells_timing_steps_seed_then_edit() {
    let steps = timing_mutation_steps("cells");
    assert_eq!(steps.len(), 110);
    assert_eq!(text_of(&steps[3], true), "=add(A1, A2)");
    assert_eq!(text_of(&steps[5], true), "0");
    assert_eq!(text_of(&steps[40], true), "2");
    assert_eq!(text_of(&steps[109], true), "edge-34");
}

#[test]
fn todo_fill_titles_are_zero_padded() {
    assert!(todo_fill_batches(100, 100).is_none());
    let (draft, enter) = todo_fill_batches(6, 100).expect("more todos needed");
    match &draft.state_updates[0].value {
        SourceValue::Text(t) => assert_eq!(t, "Todo 007"),
        other => panic!("unexpected {other:?}"),
    }
    assert_eq!(enter.events[0].path, "store.sources.new_todo_input.event.key_down.key");
    let (draft, _) = todo_fill_batches(1233, 2000).expect("more todos needed");
    match &draft.state_updates[0].value {
        SourceValue::Text(t) => assert_eq!(t, "Todo 1234"),
        other => panic!("unexpected {other:?}"),
    }
    let (draft, _) = todo_fill_batches(-3, 0).expect("more todos needed");
    match &draft.state_updates[0].value {
        SourceValue::Text(t) => assert_eq!(*t, format!("Todo {:03}", -2)),
        other => panic!("unexpected {other:?}"),
    }
}
