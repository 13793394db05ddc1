//! The scripted scenarios that the browser runner replays against an
//! example app: which batches it sends and when it lets time pass. The
//! runner performs each step; when a step asks for a number of todos, it
//! reads the app's count and asks [`todo_fill_batches`] what to send next.
use vstd::prelude::*;
use crate::runtime::{dynamic_event, dynamic_state, event, state, SourceBatch, SourceValue, SourceValueModel};
use crate::text::{chars_of, dec_chars, push_decimal, push_str, seq_eq, string_of};

verus! {

/// One step of a scenario: send a batch, let time pass, or add todos
/// until the app holds `target` of them.
#[derive(Debug)]
pub enum ScenarioStep {
    Dispatch(SourceBatch),
    AdvanceTime { millis: u64 },
    FillTodos { target: i64 },
}

/// Whether a batch holds exactly one emission, an update of a source's
/// state (`as_update`) or an event, on `path` from `owner` (its id and
/// generation) or from no row, carrying `value`.
pub open spec fn batch_emits(
    b: SourceBatch,
    as_update: bool,
    path: Seq<char>,
    owner: Option<(Seq<char>, u32)>,
    value: SourceValueModel,
) -> bool {
    let one = if as_update { b.state_updates@ } else { b.events@ };
    let none = if as_update { b.events@ } else { b.state_updates@ };
    &&& one.len() == 1
    &&& none.len() == 0
    &&& one[0].path@ == path
    &&& one[0].value@ == value
    &&& match owner {
        Some((o, g)) => (one[0].owner_id matches Some(x) && x@ == o) && one[0].owner_generation == Some(g),
        None => one[0].owner_id is None && one[0].owner_generation is None,
    }
}

/// Whether a step sends a batch that [`batch_emits`] describes.
pub open spec fn emits(
    step: ScenarioStep,
    as_update: bool,
    path: Seq<char>,
    owner: Option<(Seq<char>, u32)>,
    value: SourceValueModel,
) -> bool {
    match step {
        ScenarioStep::Dispatch(b) => batch_emits(b, as_update, path, owner, value),
        _ => false,
    }
}

fn event_step(path: &str, value: SourceValue) -> (r: ScenarioStep)
    ensures
        emits(r, false, path@, None, value@),
{
    ScenarioStep::Dispatch(event(path, value))
}

fn state_step(path: &str, value: SourceValue) -> (r: ScenarioStep)
    ensures
        emits(r, true, path@, None, value@),
{
    ScenarioStep::Dispatch(state(path, value))
}

fn dynamic_event_step(path: &str, owner: &str, generation: u32, value: SourceValue) -> (r: ScenarioStep)
    ensures
        emits(r, false, path@, Some((owner@, generation)), value@),
{
    ScenarioStep::Dispatch(dynamic_event(path, owner, generation, value))
}

fn dynamic_state_step(path: &str, owner: &str, generation: u32, value: SourceValue) -> (r: ScenarioStep)
    ensures
        emits(r, true, path@, Some((owner@, generation)), value@),
{
    ScenarioStep::Dispatch(dynamic_state(path, owner, generation, value))
}

fn name_is(name: &str, lit: &str) -> (r: bool)
    ensures
        r == (name@ == lit@),
{
    let a = chars_of(name);
    let b = chars_of(lit);
    seq_eq(&a, &b)
}

/// The examples that have a core scenario.
pub open spec fn is_core_example(name: Seq<char>) -> bool {
    name == "counter"@ || name == "counter_hold"@ || name == "interval"@ || name == "interval_hold"@
        || name == "todo_mvc"@ || name == "todo_mvc_physical"@ || name == "cells"@ || name == "pong"@
        || name == "arkanoid"@
}

/// The steps of an example's core scenario: ten presses of the counter's
/// button; three seconds of the interval's clock; a todo typed, entered,
/// all toggled and the first one checked; a cell given a number and
/// entered; one frame of a game.
pub open spec fn core_steps(name: Seq<char>, v: Seq<ScenarioStep>) -> bool {
    if name == "counter"@ || name == "counter_hold"@ {
        &&& v.len() == 10
        &&& forall|i: int| 0 <= i < 10 ==> emits(#[trigger] v[i], false, "store.sources.increment_button.event.press"@, None, SourceValueModel::EmptyRecord)
    } else if name == "interval"@ || name == "interval_hold"@ {
        v.len() == 1 && v[0] == (ScenarioStep::AdvanceTime { millis: 3000 })
    } else if name == "todo_mvc"@ || name == "todo_mvc_physical"@ {
        &&& v.len() == 4
        &&& emits(v[0], true, "store.sources.new_todo_input.text"@, None, SourceValueModel::Text("Buy milk"@))
        &&& emits(v[1], false, "store.sources.new_todo_input.event.key_down.key"@, None, SourceValueModel::Tag("Enter"@))
        &&& emits(v[2], false, "store.sources.toggle_all_checkbox.event.click"@, None, SourceValueModel::EmptyRecord)
        &&& emits(v[3], false, "todos[*].sources.checkbox.event.click"@, Some(("1"@, 0u32)), SourceValueModel::EmptyRecord)
    } else if name == "cells"@ {
        &&& v.len() == 2
        &&& emits(v[0], true, "cells[*].sources.editor.text"@, Some(("A1"@, 0u32)), SourceValueModel::Text("1"@))
        &&& emits(v[1], false, "cells[*].sources.editor.event.key_down.key"@, Some(("A1"@, 0u32)), SourceValueModel::Tag("Enter"@))
    } else {
        v.len() == 1 && emits(v[0], false, "store.sources.tick.event.frame"@, None, SourceValueModel::EmptyRecord)
    }
}

/// The error for an example without a scenario.
pub open spec fn unknown_scenario(name: Seq<char>) -> Seq<char> {
    "unknown browser scenario example `"@ + name + "`"@
}

/// The steps of an example's core scenario.
pub fn core_scenario_steps(name: &str) -> (r: Result<Vec<ScenarioStep>, String>)
    ensures
        match r {
            Ok(v) => is_core_example(name@) && core_steps(name@, v@),
            Err(e) => !is_core_example(name@) && e@ == unknown_scenario(name@),
        },
{
    let mut v: Vec<ScenarioStep> = Vec::new();
    if name_is(name, "counter") || name_is(name, "counter_hold") {
        let mut i: usize = 0;
        while i < 10
            invariant
                i <= 10,
                v@.len() == i,
                forall|k: int| 0 <= k < i ==> emits(#[trigger] v@[k], false, "store.sources.increment_button.event.press"@, None, SourceValueModel::EmptyRecord),
            decreases 10 - i,
        {
            v.push(event_step("store.sources.increment_button.event.press", SourceValue::EmptyRecord));
            i += 1;
        }
    } else if name_is(name, "interval") || name_is(name, "interval_hold") {
        v.push(ScenarioStep::AdvanceTime { millis: 3000 });
    } else if name_is(name, "todo_mvc") || name_is(name, "todo_mvc_physical") {
        v.push(state_step("store.sources.new_todo_input.text", SourceValue::Text("Buy milk".to_owned())));
        v.push(event_step("store.sources.new_todo_input.event.key_down.key", SourceValue::Tag("Enter".to_owned())));
        v.push(event_step("store.sources.toggle_all_checkbox.event.click", SourceValue::EmptyRecord));
        v.push(dynamic_event_step("todos[*].sources.checkbox.event.click", "1", 0, SourceValue::EmptyRecord));
    } else if name_is(name, "cells") {
        v.push(dynamic_state_step("cells[*].sources.editor.text", "A1", 0, SourceValue::Text("1".to_owned())));
        v.push(dynamic_event_step("cells[*].sources.editor.event.key_down.key", "A1", 0, SourceValue::Tag("Enter".to_owned())));
    } else if name_is(name, "pong") || name_is(name, "arkanoid") {
        v.push(event_step("store.sources.tick.event.frame", SourceValue::EmptyRecord));
    } else {
        let mut out: Vec<char> = Vec::new();
        push_str(&mut out, "unknown browser scenario example `");
        push_str(&mut out, name);
        push_str(&mut out, "`");
        return Err(string_of(&out));
    }
    Ok(v)
}

/// `n` copies of `x`.
pub open spec fn x_run(n: nat) -> Seq<char> {
    Seq::new(n, |_j: int| 'x')
}

fn x_text(n: usize) -> (r: String)
    ensures
        r@ == x_run(n as nat),
{
    let mut out: Vec<char> = Vec::new();
    let mut i: usize = 0;
    while i < n
        invariant
            i <= n,
            out@ == x_run(i as nat),
        decreases n - i,
    {
        out.push('x');
        assert(out@ =~= x_run((i + 1) as nat));
        i += 1;
    }
    string_of(&out)
}

fn decimal_text(n: u64) -> (r: String)
    ensures
        r@ == dec_chars(n as nat),
{
    let mut out: Vec<char> = Vec::new();
    push_decimal(&mut out, n);
    assert(out@ =~= dec_chars(n as nat));
    string_of(&out)
}

/// The cell texts that the timing scenario of the grid types first.
pub open spec fn cells_seed(k: int) -> (Seq<char>, Seq<char>) {
    if k == 0 {
        ("A1"@, "1"@)
    } else if k == 1 {
        ("A2"@, "2"@)
    } else if k == 2 {
        ("A3"@, "3"@)
    } else if k == 3 {
        ("B1"@, "=add(A1, A2)"@)
    } else {
        ("B2"@, "=sum(A1:A3)"@)
    }
}

/// The steps that stress an example's timing: for the todo list, 105
/// growing drafts, enough todos for a hundred, 35 rows checked and 35
/// toggles of all rows; for the grid, five seeded cells and 35 edits of
/// each of `A1`, `A2` and the far cell `Z100`; nothing for other examples.
pub open spec fn timing_steps(name: Seq<char>, v: Seq<ScenarioStep>) -> bool {
    if name == "todo_mvc"@ || name == "todo_mvc_physical"@ {
        &&& v.len() == 176
        &&& forall|k: int| 0 <= k < 105 ==> emits(#[trigger] v[k], true, "store.sources.new_todo_input.text"@, None, SourceValueModel::Text(x_run((k + 1) as nat)))
        &&& v[105] == (ScenarioStep::FillTodos { target: 100 })
        &&& forall|k: int| 106 <= k < 141 ==> emits(#[trigger] v[k], false, "todos[*].sources.checkbox.event.click"@,
            Some((dec_chars(((k - 106) % 100 + 1) as nat), 0u32)), SourceValueModel::EmptyRecord)
        &&& forall|k: int| 141 <= k < 176 ==> emits(#[trigger] v[k], false, "store.sources.toggle_all_checkbox.event.click"@, None, SourceValueModel::EmptyRecord)
    } else if name == "cells"@ {
        &&& v.len() == 110
        &&& forall|k: int| 0 <= k < 5 ==> emits(#[trigger] v[k], true, "cells[*].sources.editor.text"@,
            Some((cells_seed(k).0, 0u32)), SourceValueModel::Text(cells_seed(k).1))
        &&& forall|k: int| 5 <= k < 40 ==> emits(#[trigger] v[k], true, "cells[*].sources.editor.text"@,
            Some(("A1"@, 0u32)), SourceValueModel::Text(dec_chars((k - 5) as nat)))
        &&& forall|k: int| 40 <= k < 75 ==> emits(#[trigger] v[k], true, "cells[*].sources.editor.text"@,
            Some(("A2"@, 0u32)), SourceValueModel::Text(dec_chars((k - 40 + 2) as nat)))
        &&& forall|k: int| 75 <= k < 110 ==> emits(#[trigger] v[k], true, "cells[*].sources.editor.text"@,
            Some(("Z100"@, 0u32)), SourceValueModel::Text("edge-"@ + dec_chars((k - 75) as nat)))
    } else {
        v.len() == 0
    }
}

/// The steps that stress an example's timing.
pub fn timing_mutation_steps(name: &str) -> (r: Vec<ScenarioStep>)
    ensures
        timing_steps(name@, r@),
{
    let mut v: Vec<ScenarioStep> = Vec::new();
    if name_is(name, "todo_mvc") || name_is(name, "todo_mvc_physical") {
        let mut i: usize = 0;
        while i < 105
            invariant
                i <= 105,
                v@.len() == i,
                forall|k: int| 0 <= k < i ==> emits(#[trigger] v@[k], true, "store.sources.new_todo_input.text"@, None, SourceValueModel::Text(x_run((k + 1) as nat))),
            decreases 105 - i,
        {
            v.push(state_step("store.sources.new_todo_input.text", SourceValue::Text(x_text(i + 1))));
            i += 1;
        }
        v.push(ScenarioStep::FillTodos { target: 100 });
        let mut i: usize = 0;
        while i < 35
            invariant
                i <= 35,
                v@.len() == 106 + i,
                forall|k: int| 0 <= k < 105 ==> emits(#[trigger] v@[k], true, "store.sources.new_todo_input.text"@, None, SourceValueModel::Text(x_run((k + 1) as nat))),
                v@[105] == (ScenarioStep::FillTodos { target: 100 }),
                forall|k: int| 106 <= k < 106 + i ==> emits(#[trigger] v@[k], false, "todos[*].sources.checkbox.event.click"@,
                    Some((dec_chars(((k - 106) % 100 + 1) as nat), 0u32)), SourceValueModel::EmptyRecord),
            decreases 35 - i,
        {
            let owner = decimal_text((i % 100 + 1) as u64);
            v.push(dynamic_event_step("todos[*].sources.checkbox.event.click", owner.as_str(), 0, SourceValue::EmptyRecord));
            i += 1;
        }
        let mut i: usize = 0;
        while i < 35
            invariant
                i <= 35,
                v@.len() == 141 + i,
                forall|k: int| 0 <= k < 105 ==> emits(#[trigger] v@[k], true, "store.sources.new_todo_input.text"@, None, SourceValueModel::Text(x_run((k + 1) as nat))),
                v@[105] == (ScenarioStep::FillTodos { target: 100 }),
                forall|k: int| 106 <= k < 141 ==> emits(#[trigger] v@[k], false, "todos[*].sources.checkbox.event.click"@,
                    Some((dec_chars(((k - 106) % 100 + 1) as nat), 0u32)), SourceValueModel::EmptyRecord),
                forall|k: int| 141 <= k < 141 + i ==> emits(#[trigger] v@[k], false, "store.sources.toggle_all_checkbox.event.click"@, None, SourceValueModel::EmptyRecord),
            decreases 35 - i,
        {
            v.push(event_step("store.sources.toggle_all_checkbox.event.click", SourceValue::EmptyRecord));
            i += 1;
        }
    } else if name_is(name, "cells") {
        let seeds = [("A1", "1"), ("A2", "2"), ("A3", "3"), ("B1", "=add(A1, A2)"), ("B2", "=sum(A1:A3)")];
        let mut i: usize = 0;
        while i < 5
            invariant
                i <= 5,
                v@.len() == i,
                seeds@ == seq![("A1", "1"), ("A2", "2"), ("A3", "3"), ("B1", "=add(A1, A2)"), ("B2", "=sum(A1:A3)")],
                forall|k: int| 0 <= k < i ==> emits(#[trigger] v@[k], true, "cells[*].sources.editor.text"@,
                    Some((cells_seed(k).0, 0u32)), SourceValueModel::Text(cells_seed(k).1)),
            decreases 5 - i,
        {
            let (owner, text) = seeds[i];
            assert(owner@ == cells_seed(i as int).0 && text@ == cells_seed(i as int).1);
            v.push(dynamic_state_step("cells[*].sources.editor.text", owner, 0, SourceValue::Text(text.to_owned())));
            i += 1;
        }
        let mut i: usize = 0;
        while i < 35
            invariant
                i <= 35,
                v@.len() == 5 + i,
                forall|k: int| 0 <= k < 5 ==> emits(#[trigger] v@[k], true, "cells[*].sources.editor.text"@,
                    Some((cells_seed(k).0, 0u32)), SourceValueModel::Text(cells_seed(k).1)),
                forall|k: int| 5 <= k < 5 + i ==> emits(#[trigger] v@[k], true, "cells[*].sources.editor.text"@,
                    Some(("A1"@, 0u32)), SourceValueModel::Text(dec_chars((k - 5) as nat))),
            decreases 35 - i,
        {
            v.push(dynamic_state_step("cells[*].sources.editor.text", "A1", 0, SourceValue::Text(decimal_text(i as u64))));
            i += 1;
        }
        let mut i: usize = 0;
        while i < 35
            invariant
                i <= 35,
                v@.len() == 40 + i,
                forall|k: int| 0 <= k < 5 ==> emits(#[trigger] v@[k], true, "cells[*].sources.editor.text"@,
                    Some((cells_seed(k).0, 0u32)), SourceValueModel::Text(cells_seed(k).1)),
                forall|k: int| 5 <= k < 40 ==> emits(#[trigger] v@[k], true, "cells[*].sources.editor.text"@,
                    Some(("A1"@, 0u32)), SourceValueModel::Text(dec_chars((k - 5) as nat))),
                forall|k: int| 40 <= k < 40 + i ==> emits(#[trigger] v@[k], true, "cells[*].sources.editor.text"@,
                    Some(("A2"@, 0u32)), SourceValueModel::Text(dec_chars((k - 40 + 2) as nat))),
            decreases 35 - i,
        {
            v.push(dynamic_state_step("cells[*].sources.editor.text", "A2", 0, SourceValue::Text(decimal_text((i + 2) as u64))));
            i += 1;
        }
        let mut i: usize = 0;
        while i < 35
            invariant
                i <= 35,
                v@.len() == 75 + i,
                forall|k: int| 0 <= k < 5 ==> emits(#[trigger] v@[k], true, "cells[*].sources.editor.text"@,
                    Some((cells_seed(k).0, 0u32)), SourceValueModel::Text(cells_seed(k).1)),
                forall|k: int| 5 <= k < 40 ==> emits(#[trigger] v@[k], true, "cells[*].sources.editor.text"@,
                    Some(("A1"@, 0u32)), SourceValueModel::Text(dec_chars((k - 5) as nat))),
                forall|k: int| 40 <= k < 75 ==> emits(#[trigger] v@[k], true, "cells[*].sources.editor.text"@,
                    Some(("A2"@, 0u32)), SourceValueModel::Text(dec_chars((k - 40 + 2) as nat))),
                forall|k: int| 75 <= k < 75 + i ==> emits(#[trigger] v@[k], true, "cells[*].sources.editor.text"@,
                    Some(("Z100"@, 0u32)), SourceValueModel::Text("edge-"@ + dec_chars((k - 75) as nat))),
            decreases 35 - i,
        {
            let mut t: Vec<char> = Vec::new();
            push_str(&mut t, "edge-");
            push_decimal(&mut t, i as u64);
            let text = string_of(&t);
            v.push(dynamic_state_step("cells[*].sources.editor.text", "Z100", 0, SourceValue::Text(text)));
            i += 1;
        }
    }
    v
}

/// `n` written with at least `width` digits, zeros in front.
pub open spec fn zero_padded(n: nat, width: nat) -> Seq<char> {
    let d = dec_chars(n);
    if d.len() >= width { d } else { Seq::new((width - d.len()) as nat, |_j: int| '0') + d }
}

/// `n` as `{:03}` writes it: at least three characters, the sign first and
/// zeros after it.
pub open spec fn padded3(n: int) -> Seq<char> {
    if n >= 0 { zero_padded(n as nat, 3) } else { seq!['-'] + zero_padded((-n) as nat, 2) }
}

fn push_zero_padded(out: &mut Vec<char>, n: u64, width: usize)
    ensures
        final(out)@ == old(out)@ + zero_padded(n as nat, width as nat),
{
    let mut digits: Vec<char> = Vec::new();
    push_decimal(&mut digits, n);
    assert(digits@ =~= dec_chars(n as nat));
    let ghost start = out@;
    let mut k: usize = digits.len();
    while k < width
        invariant
            digits@ == dec_chars(n as nat),
            digits@.len() <= k,
            digits@.len() < width ==> k <= width,
            k <= width ==> out@ == start + Seq::new((k - digits@.len()) as nat, |_j: int| '0'),
            k > width ==> out@ == start,
        decreases width - k,
    {
        out.push('0');
        assert(out@ =~= start + Seq::new((k + 1 - digits@.len()) as nat, |_j: int| '0'));
        k += 1;
    }
    let ghost zeros: Seq<char> = if digits@.len() >= width {
        Seq::empty()
    } else {
        Seq::new((width - digits@.len()) as nat, |_j: int| '0')
    };
    proof {
        if digits@.len() >= width {
            if k <= width {
                assert(Seq::new((k - digits@.len()) as nat, |_j: int| '0') =~= Seq::<char>::empty());
            }
            assert(out@ =~= start + zeros);
        } else {
            assert(k == width);
        }
    }
    assert(out@ =~= start + zeros);
    let ghost before_digits = out@;
    let mut j: usize = 0;
    while j < digits.len()
        invariant
            j <= digits@.len(),
            out@ == before_digits + digits@.take(j as int),
        decreases digits.len() - j,
    {
        out.push(digits[j]);
        assert(out@ =~= before_digits + digits@.take(j + 1));
        j += 1;
    }
    assert(digits@.take(digits@.len() as int) =~= digits@);
    assert(zero_padded(n as nat, width as nat) =~= zeros + digits@);
    assert(out@ =~= start + zero_padded(n as nat, width as nat));
}

/// The title of the `n`th todo that the fill step adds: `Todo 001` and on.
pub open spec fn todo_title(n: int) -> Seq<char> {
    "Todo "@ + padded3(n)
}

/// What the fill step sends while the app holds `current` todos and
/// should hold `target`: nothing once it holds enough, else a draft
/// titled after the next todo and an Enter on the entry.
pub fn todo_fill_batches(current: i64, target: i64) -> (r: Option<(SourceBatch, SourceBatch)>)
    ensures
        current >= target <==> r is None,
        match r {
            Some((draft, enter)) => {
                &&& batch_emits(draft, true, "store.sources.new_todo_input.text"@, None, SourceValueModel::Text(todo_title(current + 1)))
                &&& batch_emits(enter, false, "store.sources.new_todo_input.event.key_down.key"@, None, SourceValueModel::Tag("Enter"@))
            },
            None => true,
        },
{
    if current >= target {
        return None;
    }
    let next = current + 1;
    let mut t: Vec<char> = Vec::new();
    push_str(&mut t, "Todo ");
    if next >= 0 {
        push_zero_padded(&mut t, next as u64, 3);
    } else {
        t.push('-');
        let m: u64 = if next == i64::MIN { 9223372036854775808u64 } else { (-next) as u64 };
        push_zero_padded(&mut t, m, 2);
        assert(t@ =~= "Todo "@ + padded3(next as int));
    }
    let title = string_of(&t);
    Some((
        state("store.sources.new_todo_input.text", SourceValue::Text(title)),
        event("store.sources.new_todo_input.event.key_down.key", SourceValue::Tag("Enter".to_owned())),
    ))
}

} // verus!
