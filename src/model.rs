//! The persisted document and the in-memory tracking coordinator.

use vstd::prelude::*;

verus! {

/// A user-defined bucket of interest, naming the applications it tracks.
#[derive(Debug, Clone)]
pub struct TrackingSpace {
    pub id: String,
    pub name: String,
    pub apps: Vec<String>,
    pub is_active: bool,
    pub color: String,
}

/// Seconds accumulated for one (space, application, day) key.
#[derive(Debug, Clone)]
pub struct TimeEntry {
    pub space_id: String,
    pub app_name: String,
    pub date: String,
    pub duration: u64,
}

/// User settings, carried through persistence unchanged by the engine.
#[derive(Debug, Clone)]
pub struct AppSettings {
    pub enable_dnd: bool,
    pub muted_apps: Vec<String>,
}

/// The whole persisted document.
#[derive(Debug, Clone)]
pub struct AppState {
    pub spaces: Vec<TrackingSpace>,
    pub entries: Vec<TimeEntry>,
    pub settings: AppSettings,
}

/// The identity of the focused application.
#[derive(Debug, Clone)]
pub struct RunningApp {
    pub name: String,
    pub process_id: u64,
}

/// What is being tracked right now. `last_check` is a monotonic timestamp in
/// milliseconds.
#[derive(Debug, Clone)]
pub struct TrackingState {
    pub active_space_id: Option<String>,
    pub last_app: Option<String>,
    pub last_check: Option<u64>,
}

impl Default for AppSettings {
    fn default() -> (r: Self)
        ensures
            !r.enable_dnd,
            r.muted_apps@.len() == 0,
    {
        AppSettings { enable_dnd: false, muted_apps: Vec::new() }
    }
}

impl Default for AppState {
    fn default() -> (r: Self)
        ensures
            r.spaces@.len() == 0,
            r.entries@.len() == 0,
            !r.settings.enable_dnd,
            r.settings.muted_apps@.len() == 0,
    {
        AppState { spaces: Vec::new(), entries: Vec::new(), settings: AppSettings::default() }
    }
}

impl Default for TrackingState {
    fn default() -> (r: Self)
        ensures
            r.active_space_id is None,
            r.last_app is None,
            r.last_check is None,
    {
        TrackingState { active_space_id: None, last_app: None, last_check: None }
    }
}

/// No two spaces share an id.
pub open spec fn unique_ids(spaces: Seq<TrackingSpace>) -> bool {
    forall|i: int, j: int|
        0 <= i < spaces.len() && 0 <= j < spaces.len() && i != j ==> spaces[i].id@ != spaces[j].id@
}

/// At most one space is marked active.
pub open spec fn at_most_one_active(spaces: Seq<TrackingSpace>) -> bool {
    forall|i: int, j: int|
        0 <= i < spaces.len() && 0 <= j < spaces.len() && spaces[i].is_active && spaces[j].is_active
            ==> i == j
}

/// `t` with its active flag set to `b`, all else kept.
pub open spec fn with_active(t: TrackingSpace, b: bool) -> TrackingSpace {
    TrackingSpace { id: t.id, name: t.name, apps: t.apps, is_active: b, color: t.color }
}

} // verus!
