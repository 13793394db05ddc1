//! Values and batches that hosts send to a running Boon application.
use vstd::prelude::*;

verus! {

#[derive(Debug)]
pub enum SourceValue {
    EmptyRecord,
    Text(String),
    Number(i64),
    Tag(String),
}

/// The view of a [`SourceValue`].
pub enum SourceValueModel {
    EmptyRecord,
    Text(Seq<char>),
    Number(i64),
    Tag(Seq<char>),
}

impl View for SourceValue {
    type V = SourceValueModel;

    open spec fn view(&self) -> SourceValueModel {
        match self {
            SourceValue::EmptyRecord => SourceValueModel::EmptyRecord,
            SourceValue::Text(t) => SourceValueModel::Text(t@),
            SourceValue::Number(n) => SourceValueModel::Number(*n),
            SourceValue::Tag(t) => SourceValueModel::Tag(t@),
        }
    }
}

#[derive(Debug)]
pub struct SourceEmission {
    pub path: String,
    pub value: SourceValue,
    pub owner_id: Option<String>,
    pub owner_generation: Option<u32>,
}

#[derive(Debug)]
pub struct SourceBatch {
    pub state_updates: Vec<SourceEmission>,
    pub events: Vec<SourceEmission>,
}

#[derive(Clone, Copy, Debug)]
pub struct TurnId(pub u64);

#[derive(Debug)]
pub struct StateDelta {
    pub changed_paths: Vec<String>,
}

#[derive(Debug)]
pub struct ClockTime {
    pub millis: u64,
}

#[derive(Debug)]
pub struct RuntimeClock {
    pub millis: u64,
}

impl RuntimeClock {
    /// A clock at time zero.
    pub fn new() -> (r: RuntimeClock)
        ensures
            r.millis == 0,
    {
        RuntimeClock { millis: 0 }
    }

    /// Moves the clock forward by `delta_millis` milliseconds, taken as a
    /// `u64` the way a cast truncates it.
    pub fn advance(&mut self, delta_millis: u128)
        requires
            old(self).millis + (delta_millis as u64) <= u64::MAX,
        ensures
            final(self).millis == old(self).millis + (delta_millis as u64),
    {
        self.millis = self.millis + delta_millis as u64;
    }
}

/// An emission from a source that no row owns.
pub open spec fn plain_emission(e: SourceEmission, path: Seq<char>, value: SourceValue) -> bool {
    e.path@ == path && e.value == value && e.owner_id is None && e.owner_generation is None
}

/// An emission from a source that the row `owner` owns in `generation`.
pub open spec fn owned_emission(e: SourceEmission, path: Seq<char>, owner: Seq<char>, generation: u32, value: SourceValue) -> bool {
    e.path@ == path && e.value == value && (e.owner_id matches Some(o) && o@ == owner)
        && e.owner_generation == Some(generation)
}

/// A batch holding one event from a source that no row owns.
pub fn event(path: &str, value: SourceValue) -> (r: SourceBatch)
    ensures
        r.state_updates@.len() == 0,
        r.events@.len() == 1,
        plain_emission(r.events@[0], path@, value),
{
    SourceBatch {
        state_updates: Vec::new(),
        events: vec![SourceEmission { path: path.to_owned(), value, owner_id: None, owner_generation: None }],
    }
}

/// A batch holding one state update of a source that no row owns.
pub fn state(path: &str, value: SourceValue) -> (r: SourceBatch)
    ensures
        r.state_updates@.len() == 1,
        r.events@.len() == 0,
        plain_emission(r.state_updates@[0], path@, value),
{
    SourceBatch {
        state_updates: vec![SourceEmission { path: path.to_owned(), value, owner_id: None, owner_generation: None }],
        events: Vec::new(),
    }
}

/// A batch holding one event from a source of the row `owner_id`.
pub fn dynamic_event(path: &str, owner_id: &str, owner_generation: u32, value: SourceValue) -> (r: SourceBatch)
    ensures
        r.state_updates@.len() == 0,
        r.events@.len() == 1,
        owned_emission(r.events@[0], path@, owner_id@, owner_generation, value),
{
    SourceBatch {
        state_updates: Vec::new(),
        events: vec![
            SourceEmission {
                path: path.to_owned(),
                value,
                owner_id: Some(owner_id.to_owned()),
                owner_generation: Some(owner_generation),
            },
        ],
    }
}

/// A batch holding one state update of a source of the row `owner_id`.
pub fn dynamic_state(path: &str, owner_id: &str, owner_generation: u32, value: SourceValue) -> (r: SourceBatch)
    ensures
        r.state_updates@.len() == 1,
        r.events@.len() == 0,
        owned_emission(r.state_updates@[0], path@, owner_id@, owner_generation, value),
{
    SourceBatch {
        state_updates: vec![
            SourceEmission {
                path: path.to_owned(),
                value,
                owner_id: Some(owner_id.to_owned()),
                owner_generation: Some(owner_generation),
            },
        ],
        events: Vec::new(),
    }
}

} // verus!
