//! The tracking coordinator: exclusive activation of one space, and the
//! decision the polling loop takes on each tick.

use vstd::prelude::*;
use crate::matching::{is_tracked, space_tracks};
use crate::model::{AppState, TrackingSpace, TrackingState, at_most_one_active, unique_ids, with_active};
use crate::document::{find_space, first_space_with_id};

verus! {

impl TrackingState {
    /// Starts tracking `space_id` from `now_ms`, with no application seen yet.
    pub fn activate(&mut self, space_id: String, now_ms: u64)
        ensures
            final(self).active_space_id == Some(space_id),
            final(self).last_app is None,
            final(self).last_check == Some(now_ms),
    {
        self.active_space_id = Some(space_id);
        self.last_check = Some(now_ms);
        self.last_app = None;
    }

    /// Stops all tracking.
    pub fn deactivate_all(&mut self)
        ensures
            final(self).active_space_id is None,
            final(self).last_app is None,
            final(self).last_check is None,
    {
        self.active_space_id = None;
        self.last_check = None;
        self.last_app = None;
    }
}

/// Every space whose id is `id` has its flag negated; every other space is
/// made inactive.
pub open spec fn toggled(s: Seq<TrackingSpace>, id: Seq<char>) -> Seq<TrackingSpace> {
    s.map_values(|t: TrackingSpace| with_active(t, t.id@ == id && !t.is_active))
}

/// Every space made inactive.
pub open spec fn stopped(s: Seq<TrackingSpace>) -> Seq<TrackingSpace> {
    s.map_values(|t: TrackingSpace| with_active(t, false))
}

/// The flag of the last space whose id is `id`, or `false` when there is none.
pub open spec fn active_of(s: Seq<TrackingSpace>, id: Seq<char>) -> bool
    decreases s.len(),
{
    if s.len() == 0 {
        false
    } else if s.last().id@ == id {
        s.last().is_active
    } else {
        active_of(s.drop_last(), id)
    }
}

/// Whether toggling `id` leaves it active: the negated flag of the last space
/// with that id, or `false` when there is none.
pub open spec fn toggle_result(s: Seq<TrackingSpace>, id: Seq<char>) -> bool
    decreases s.len(),
{
    if s.len() == 0 {
        false
    } else if s.last().id@ == id {
        !s.last().is_active
    } else {
        toggle_result(s.drop_last(), id)
    }
}

/// The space the coordinator tracks after a toggle of `id` on `s`.
pub open spec fn tracked_after_toggle(s: Seq<TrackingSpace>, id: Seq<char>) -> Option<Seq<char>> {
    if toggle_result(s, id) {
        Some(id)
    } else {
        None
    }
}

/// Toggles tracking of `space_id` with exclusive activation, and drives the
/// coordinator to match. Returns whether the space is now active.
pub fn toggle_tracking(
    state: &mut AppState,
    coord: &mut TrackingState,
    space_id: String,
    now_ms: u64,
) -> (r: bool)
    ensures
        final(state).spaces@ == toggled(old(state).spaces@, space_id@),
        r == toggle_result(old(state).spaces@, space_id@),
        final(state).entries == old(state).entries,
        final(state).settings == old(state).settings,
        r ==> final(coord).active_space_id == Some(space_id) && final(coord).last_app is None
            && final(coord).last_check == Some(now_ms),
        !r ==> final(coord).active_space_id is None && final(coord).last_app is None
            && final(coord).last_check is None,
        unique_ids(old(state).spaces@) ==> at_most_one_active(final(state).spaces@),
        unique_ids(old(state).spaces@) ==> unique_ids(final(state).spaces@),
{
    let ghost old_spaces = state.spaces@;
    let ghost id = space_id@;
    let mut now_active = false;
    let mut i: usize = 0;
    while i < state.spaces.len()
        invariant
            id == space_id@,
            0 <= i <= old_spaces.len(),
            state.spaces@ == toggled(old_spaces.take(i as int), id) + old_spaces.skip(i as int),
            now_active == toggle_result(old_spaces.take(i as int), id),
            state.entries == old(state).entries,
            state.settings == old(state).settings,
        decreases old_spaces.len() - i,
    {
        proof {
            assert(old_spaces.take(i + 1).drop_last() =~= old_spaces.take(i as int));
            assert(old_spaces.take(i + 1).last() == old_spaces[i as int]);
            assert(state.spaces@[i as int] == old_spaces[i as int]);
        }
        if state.spaces[i].id == space_id {
            let b = !state.spaces[i].is_active;
            state.spaces[i].is_active = b;
            now_active = b;
        } else {
            state.spaces[i].is_active = false;
        }
        assert(state.spaces@ =~= toggled(old_spaces.take(i + 1), id) + old_spaces.skip(i + 1));
        i += 1;
    }
    assert(old_spaces.take(i as int) =~= old_spaces);
    assert(state.spaces@ =~= toggled(old_spaces, id));
    if now_active {
        coord.activate(space_id, now_ms);
    } else {
        coord.deactivate_all();
    }
    proof {
        let f = toggled(old_spaces, id);
        assert forall|a: int, b: int|
            0 <= a < f.len() && 0 <= b < f.len() && f[a].is_active && f[b].is_active && unique_ids(
                old_spaces,
            ) implies a == b by {
            assert(old_spaces[a].id@ == id && old_spaces[b].id@ == id);
        }
    }
    now_active
}

/// Makes every space inactive and stops the coordinator.
pub fn stop_all_tracking(state: &mut AppState, coord: &mut TrackingState)
    ensures
        final(state).spaces@ == stopped(old(state).spaces@),
        final(state).entries == old(state).entries,
        final(state).settings == old(state).settings,
        final(coord).active_space_id is None,
        final(coord).last_app is None,
        final(coord).last_check is None,
        at_most_one_active(final(state).spaces@),
        unique_ids(old(state).spaces@) ==> unique_ids(final(state).spaces@),
{
    let ghost old_spaces = state.spaces@;
    let mut i: usize = 0;
    while i < state.spaces.len()
        invariant
            0 <= i <= old_spaces.len(),
            state.spaces@ == stopped(old_spaces.take(i as int)) + old_spaces.skip(i as int),
            state.entries == old(state).entries,
            state.settings == old(state).settings,
        decreases old_spaces.len() - i,
    {
        proof {
            assert(state.spaces@[i as int] == old_spaces[i as int]);
        }
        state.spaces[i].is_active = false;
        assert(state.spaces@ =~= stopped(old_spaces.take(i + 1)) + old_spaces.skip(i + 1));
        i += 1;
    }
    assert(old_spaces.take(i as int) =~= old_spaces);
    assert(state.spaces@ =~= stopped(old_spaces));
    coord.deactivate_all();
}

/// Stopping all tracking twice gives the same spaces as stopping once, with
/// every space inactive.
pub proof fn lemma_stop_all_idempotent(s: Seq<TrackingSpace>)
    ensures
        stopped(stopped(s)) == stopped(s),
        forall|i: int| 0 <= i < s.len() ==> !(#[trigger] stopped(s)[i]).is_active,
{
    assert(stopped(stopped(s)) =~= stopped(s));
}

/// Toggling the same id twice restores the flag of every space with that id,
/// and leaves the coordinator tracking what it tracked before, provided it
/// tracked `id` exactly when the document marked it active.
pub proof fn lemma_toggle_twice(s: Seq<TrackingSpace>, id: Seq<char>, before: Option<Seq<char>>)
    requires
        before == (if active_of(s, id) {
            Some(id)
        } else {
            None
        }),
    ensures
        forall|i: int|
            0 <= i < s.len() && s[i].id@ == id ==> (#[trigger] toggled(toggled(s, id), id)[i]).is_active
                == s[i].is_active,
        tracked_after_toggle(toggled(s, id), id) == before,
{
    lemma_toggle_result_of_toggled(s, id);
}

/// After one toggle of `id`, a second toggle reports the flag the last space
/// with that id had at first.
pub proof fn lemma_toggle_result_of_toggled(s: Seq<TrackingSpace>, id: Seq<char>)
    ensures
        toggle_result(toggled(s, id), id) == active_of(s, id),
    decreases s.len(),
{
    if s.len() > 0 {
        assert(toggled(s, id).drop_last() =~= toggled(s.drop_last(), id));
        lemma_toggle_result_of_toggled(s.drop_last(), id);
    }
}

/// Whole seconds from `last_ms` to `now_ms`, zero when the clock reads earlier.
pub open spec fn elapsed_secs(last_ms: u64, now_ms: u64) -> u64 {
    if now_ms >= last_ms {
        ((now_ms - last_ms) / 1000) as u64
    } else {
        0
    }
}

/// The seconds a tracked tick on `app` commits: the gap since the previous
/// tick, when that tick saw the same application and the gap is at least a
/// second.
pub open spec fn tick_commit(c: TrackingState, app: Seq<char>, now_ms: u64) -> Option<u64> {
    match (c.last_app, c.last_check) {
        (Some(l), Some(lc)) => if l@ == app && elapsed_secs(lc, now_ms) > 0 {
            Some(elapsed_secs(lc, now_ms))
        } else {
            None
        },
        _ => None,
    }
}

/// One tick of the polling loop, given the spaces as just loaded, what the
/// window probe reported (`None` when it failed) and the time. Returns the
/// seconds to commit to the entry of the active space and the observed
/// application, if any.
pub fn tracking_tick(
    coord: &mut TrackingState,
    spaces: &Vec<TrackingSpace>,
    observed: &Option<String>,
    now_ms: u64,
) -> (r: Option<u64>)
    ensures
        ({
            let c = *old(coord);
            let skip = match c.active_space_id {
                None => true,
                Some(id) => observed is None || forall|i: int|
                    0 <= i < spaces@.len() ==> (#[trigger] spaces@[i]).id@ != id@,
            };
            skip ==> r is None && *final(coord) == c
        }),
        forall|i: int, id: String, app: String|
            old(coord).active_space_id == Some(id) && *observed == Some(app) && first_space_with_id(
                spaces@,
                id@,
                i,
            ) ==> {
                let c = *old(coord);
                if space_tracks(spaces@[i].apps@, app@) {
                    &&& final(coord).active_space_id == c.active_space_id
                    &&& final(coord).last_app == Some(app)
                    &&& final(coord).last_check == Some(now_ms)
                    &&& r == tick_commit(c, app@, now_ms)
                } else {
                    r is None && *final(coord) == c
                }
            },
{
    let id = match &coord.active_space_id {
        None => {
            return None;
        },
        Some(id) => id.clone(),
    };
    let app = match observed {
        None => {
            return None;
        },
        Some(a) => a,
    };
    let i = match find_space(spaces, &id) {
        None => {
            return None;
        },
        Some(i) => i,
    };
    proof {
        assert forall|k: int| first_space_with_id(spaces@, id@, k) implies k == i by {
            if k < i {
                assert(spaces@[k].id@ != id@);
            } else if k > i {
                assert(spaces@[i as int].id@ != id@);
            }
        }
    }
    if !is_tracked(&spaces[i], app) {
        return None;
    }
    let mut commit: Option<u64> = None;
    match coord.last_check {
        Some(lc) => {
            let elapsed: u64 = if now_ms >= lc {
                (now_ms - lc) / 1000
            } else {
                0
            };
            let same = match &coord.last_app {
                Some(l) => *l == *app,
                None => false,
            };
            if same && elapsed > 0 {
                commit = Some(elapsed);
            }
        },
        None => {},
    }
    coord.last_app = Some(app.clone());
    coord.last_check = Some(now_ms);
    commit
}

} // verus!
