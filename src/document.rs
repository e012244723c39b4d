//! Transactions of the command surface on the document: spaces, entries,
//! settings and statistics.

use vstd::prelude::*;
use vstd::string::*;
use crate::model::{AppSettings, AppState, TimeEntry, TrackingSpace, at_most_one_active, unique_ids};

verus! {

broadcast use vstd::seq_lib::group_filter_ensures;

/// Lexicographic order on character sequences: `a` sorts no later than `b`.
/// On `YYYY-MM-DD` dates it is the chronological order.
pub open spec fn seq_le(a: Seq<char>, b: Seq<char>) -> bool
    decreases a.len(),
{
    if a.len() == 0 {
        true
    } else if b.len() == 0 {
        false
    } else if (a[0] as u32) < (b[0] as u32) {
        true
    } else if (a[0] as u32) > (b[0] as u32) {
        false
    } else {
        seq_le(a.drop_first(), b.drop_first())
    }
}

/// Whether `a` sorts no later than `b`.
pub fn str_le(a: &String, b: &String) -> (r: bool)
    ensures
        r == seq_le(a@, b@),
{
    let sa = a.as_str();
    let sb = b.as_str();
    let al = sa.unicode_len();
    let bl = sb.unicode_len();
    let mut k: usize = 0;
    assert(a@.skip(0) =~= a@);
    assert(b@.skip(0) =~= b@);
    loop
        invariant
            al == a@.len(),
            bl == b@.len(),
            sa@ == a@,
            sb@ == b@,
            k <= al,
            k <= bl,
            seq_le(a@, b@) == seq_le(a@.skip(k as int), b@.skip(k as int)),
        decreases al - k,
    {
        if k == al {
            return true;
        }
        if k == bl {
            return false;
        }
        let ca = sa.get_char(k) as u32;
        let cb = sb.get_char(k) as u32;
        if ca < cb {
            return true;
        }
        if ca > cb {
            return false;
        }
        assert(a@.skip(k as int).drop_first() =~= a@.skip(k + 1));
        assert(b@.skip(k as int).drop_first() =~= b@.skip(k + 1));
        k += 1;
    }
}

/// An entry passes the optional filters: space id equal, date on or after
/// `date_from`, date on or before `date_to`.
pub open spec fn entry_selected(
    e: TimeEntry,
    space_id: Option<String>,
    date_from: Option<String>,
    date_to: Option<String>,
) -> bool {
    &&& (space_id matches Some(s) ==> e.space_id@ == s@)
    &&& (date_from matches Some(d) ==> seq_le(d@, e.date@))
    &&& (date_to matches Some(d) ==> seq_le(e.date@, d@))
}

fn copy_entry(e: &TimeEntry) -> (r: TimeEntry)
    ensures
        r == *e,
{
    TimeEntry {
        space_id: e.space_id.clone(),
        app_name: e.app_name.clone(),
        date: e.date.clone(),
        duration: e.duration,
    }
}

/// The entries that pass all the given filters, in their stored order.
pub fn get_time_entries(
    entries: &Vec<TimeEntry>,
    space_id: &Option<String>,
    date_from: &Option<String>,
    date_to: &Option<String>,
) -> (r: Vec<TimeEntry>)
    ensures
        r@ == entries@.filter(|e: TimeEntry| entry_selected(e, *space_id, *date_from, *date_to)),
{
    let ghost pred = |e: TimeEntry| entry_selected(e, *space_id, *date_from, *date_to);
    let mut out: Vec<TimeEntry> = Vec::new();
    let mut i: usize = 0;
    while i < entries.len()
        invariant
            i <= entries@.len(),
            pred == (|e: TimeEntry| entry_selected(e, *space_id, *date_from, *date_to)),
            out@ == entries@.take(i as int).filter(pred),
        decreases entries@.len() - i,
    {
        let e = &entries[i];
        let space_ok = match space_id {
            Some(s) => e.space_id == *s,
            None => true,
        };
        let from_ok = match date_from {
            Some(d) => str_le(d, &e.date),
            None => true,
        };
        let to_ok = match date_to {
            Some(d) => str_le(&e.date, d),
            None => true,
        };
        proof {
            reveal(Seq::filter);
            assert(entries@.take(i + 1).drop_last() =~= entries@.take(i as int));
            assert(entries@.take(i + 1).last() == *e);
            assert(pred(*e) == (space_ok && from_ok && to_ok));
        }
        if space_ok && from_ok && to_ok {
            out.push(copy_entry(e));
        }
        i += 1;
    }
    assert(entries@.take(entries@.len() as int) =~= entries@);
    out
}

/// Each element of a filtered sequence comes from a distinct position of the
/// unfiltered sequence, in increasing order.
proof fn lemma_filter_origin<A>(s: Seq<A>, p: spec_fn(A) -> bool) -> (m: Seq<int>)
    ensures
        m.len() == s.filter(p).len(),
        forall|i: int| 0 <= i < m.len() ==> 0 <= #[trigger] m[i] < s.len() && s[m[i]] == s.filter(p)[i],
        forall|i: int, j: int| 0 <= i < j < m.len() ==> #[trigger] m[i] < #[trigger] m[j],
    decreases s.len(),
{
    reveal(Seq::filter);
    if s.len() == 0 {
        Seq::empty()
    } else {
        let m0 = lemma_filter_origin(s.drop_last(), p);
        if p(s.last()) {
            m0.push(s.len() - 1)
        } else {
            m0
        }
    }
}

/// Filtering keeps ids unique and keeps at most one space active.
proof fn lemma_filter_spaces(s: Seq<TrackingSpace>, p: spec_fn(TrackingSpace) -> bool)
    ensures
        unique_ids(s) ==> unique_ids(s.filter(p)),
        at_most_one_active(s) ==> at_most_one_active(s.filter(p)),
{
    let f = s.filter(p);
    let m = lemma_filter_origin(s, p);
    assert forall|a: int, b: int|
        0 <= a < f.len() && 0 <= b < f.len() && a != b && unique_ids(s) implies f[a].id@ != f[b].id@ by {
        assert(m[a] != m[b]);
    }
    assert forall|a: int, b: int|
        0 <= a < f.len() && 0 <= b < f.len() && f[a].is_active && f[b].is_active
            && at_most_one_active(s) implies a == b by {
        if a < b {
            assert(m[a] < m[b]);
        } else if b < a {
            assert(m[b] < m[a]);
        }
    }
}

fn remove_spaces_with_id(spaces: &mut Vec<TrackingSpace>, space_id: &String)
    ensures
        final(spaces)@ == old(spaces)@.filter(|t: TrackingSpace| t.id@ != space_id@),
{
    let ghost sp = |t: TrackingSpace| t.id@ != space_id@;
    let ghost old_spaces = spaces@;
    let mut i: usize = 0;
    let ghost mut j: int = 0;
    while i < spaces.len()
        invariant
            sp == (|t: TrackingSpace| t.id@ != space_id@),
            0 <= j <= old_spaces.len(),
            i == old_spaces.take(j).filter(sp).len(),
            spaces@ == old_spaces.take(j).filter(sp) + old_spaces.skip(j),
        decreases spaces@.len() - i,
    {
        proof {
            reveal(Seq::filter);
            assert(old_spaces.take(j + 1).drop_last() =~= old_spaces.take(j));
            assert(old_spaces.skip(j)[0] == spaces@[i as int]);
            assert(old_spaces.take(j + 1).last() == old_spaces[j]);
        }
        if spaces[i].id == *space_id {
            spaces.remove(i);
            assert(spaces@ =~= old_spaces.take(j + 1).filter(sp) + old_spaces.skip(j + 1));
        } else {
            i += 1;
            assert(spaces@ =~= old_spaces.take(j + 1).filter(sp) + old_spaces.skip(j + 1));
        }
        proof {
            j = j + 1;
        }
    }
    proof {
        if j < old_spaces.len() {
            assert(spaces@.len() > i);
        }
        assert(old_spaces.take(j) =~= old_spaces);
        assert(spaces@ =~= old_spaces.filter(sp));
    }
}

fn remove_entries_of_space(entries: &mut Vec<TimeEntry>, space_id: &String)
    ensures
        final(entries)@ == old(entries)@.filter(|e: TimeEntry| e.space_id@ != space_id@),
{
    let ghost ep = |e: TimeEntry| e.space_id@ != space_id@;
    let ghost old_entries = entries@;
    let mut i: usize = 0;
    let ghost mut j: int = 0;
    while i < entries.len()
        invariant
            ep == (|e: TimeEntry| e.space_id@ != space_id@),
            0 <= j <= old_entries.len(),
            i == old_entries.take(j).filter(ep).len(),
            entries@ == old_entries.take(j).filter(ep) + old_entries.skip(j),
        decreases entries@.len() - i,
    {
        proof {
            reveal(Seq::filter);
            assert(old_entries.take(j + 1).drop_last() =~= old_entries.take(j));
            assert(old_entries.skip(j)[0] == entries@[i as int]);
            assert(old_entries.take(j + 1).last() == old_entries[j]);
        }
        if entries[i].space_id == *space_id {
            entries.remove(i);
            assert(entries@ =~= old_entries.take(j + 1).filter(ep) + old_entries.skip(j + 1));
        } else {
            i += 1;
            assert(entries@ =~= old_entries.take(j + 1).filter(ep) + old_entries.skip(j + 1));
        }
        proof {
            j = j + 1;
        }
    }
    proof {
        if j < old_entries.len() {
            assert(entries@.len() > i);
        }
        assert(old_entries.take(j) =~= old_entries);
        assert(entries@ =~= old_entries.filter(ep));
    }
}

/// Removes the space with id `space_id` and, in the same transaction, every
/// entry recorded for it; all other spaces and entries stay, in order.
pub fn delete_space(state: &mut AppState, space_id: &String)
    ensures
        final(state).spaces@ == old(state).spaces@.filter(|t: TrackingSpace| t.id@ != space_id@),
        final(state).entries@ == old(state).entries@.filter(|e: TimeEntry| e.space_id@ != space_id@),
        final(state).settings == old(state).settings,
        forall|i: int|
            0 <= i < final(state).entries@.len() ==> (#[trigger] final(state).entries@[i]).space_id@
                != space_id@,
        forall|i: int|
            0 <= i < old(state).entries@.len() && (#[trigger] old(state).entries@[i]).space_id@
                != space_id@ ==> final(state).entries@.contains(old(state).entries@[i]),
        unique_ids(old(state).spaces@) ==> unique_ids(final(state).spaces@),
        at_most_one_active(old(state).spaces@) ==> at_most_one_active(final(state).spaces@),
{
    remove_spaces_with_id(&mut state.spaces, space_id);
    remove_entries_of_space(&mut state.entries, space_id);
    proof {
        lemma_filter_spaces(old(state).spaces@, |t: TrackingSpace| t.id@ != space_id@);
    }
}

/// `i` is the first position of `s` whose space has id `id`.
pub open spec fn first_space_with_id(s: Seq<TrackingSpace>, id: Seq<char>, i: int) -> bool {
    &&& 0 <= i < s.len()
    &&& s[i].id@ == id
    &&& forall|j: int| 0 <= j < i ==> (#[trigger] s[j]).id@ != id
}

/// The first position of a space with id `id`, if any.
pub fn find_space(spaces: &Vec<TrackingSpace>, id: &String) -> (r: Option<usize>)
    ensures
        r matches Some(i) ==> first_space_with_id(spaces@, id@, i as int),
        r is None ==> forall|i: int| 0 <= i < spaces@.len() ==> (#[trigger] spaces@[i]).id@ != id@,
{
    let mut i: usize = 0;
    while i < spaces.len()
        invariant
            i <= spaces@.len(),
            forall|j: int| 0 <= j < i ==> (#[trigger] spaces@[j]).id@ != id@,
        decreases spaces@.len() - i,
    {
        if spaces[i].id == *id {
            return Some(i);
        }
        i += 1;
    }
    None
}

/// Replaces the space that has the same id, or appends it when the id is new.
pub fn save_space(state: &mut AppState, space: TrackingSpace)
    ensures
        forall|i: int|
            first_space_with_id(old(state).spaces@, space.id@, i) ==> final(state).spaces@
                == old(state).spaces@.update(i, space),
        (forall|i: int| 0 <= i < old(state).spaces@.len() ==> (#[trigger] old(state).spaces@[i]).id@
            != space.id@) ==> final(state).spaces@ == old(state).spaces@.push(space),
        final(state).entries == old(state).entries,
        final(state).settings == old(state).settings,
        unique_ids(old(state).spaces@) ==> unique_ids(final(state).spaces@),
        at_most_one_active(old(state).spaces@) && !space.is_active ==> at_most_one_active(
            final(state).spaces@,
        ),
{
    match find_space(&state.spaces, &space.id) {
        Some(i) => {
            state.spaces.set(i, space);
        },
        None => {
            state.spaces.push(space);
        },
    }
    proof {
        assert forall|a: int, b: int|
            0 <= a < final(state).spaces@.len() && 0 <= b < final(state).spaces@.len() && a != b
                && unique_ids(old(state).spaces@) implies final(state).spaces@[a].id@
            != final(state).spaces@[b].id@ by {
            if a < old(state).spaces@.len() && b < old(state).spaces@.len() {
                assert(old(state).spaces@[a].id@ != old(state).spaces@[b].id@);
            }
        }
    }
}

/// Two spaces hold the same values.
pub open spec fn same_space(a: TrackingSpace, b: TrackingSpace) -> bool {
    &&& a.id@ == b.id@
    &&& a.name@ == b.name@
    &&& a.apps@.map_values(|s: String| s@) == b.apps@.map_values(|s: String| s@)
    &&& a.is_active == b.is_active
    &&& a.color@ == b.color@
}

/// Relies on uuid's `Uuid::new_v4` and its hyphenated text form: a fresh
/// random identifier. Nothing is promised of its value.
#[verifier::external_body]
fn new_space_id() -> (r: String) {
    uuid::Uuid::new_v4().to_string()
}

/// Appends a new space with a freshly generated id, no applications and not
/// active, and returns it.
pub fn create_space(state: &mut AppState, name: String, color: String) -> (r: TrackingSpace)
    ensures
        r.name == name,
        r.color == color,
        r.apps@.len() == 0,
        !r.is_active,
        final(state).spaces@.len() == old(state).spaces@.len() + 1,
        final(state).spaces@.drop_last() == old(state).spaces@,
        same_space(final(state).spaces@.last(), r),
        final(state).entries == old(state).entries,
        final(state).settings == old(state).settings,
        at_most_one_active(old(state).spaces@) ==> at_most_one_active(final(state).spaces@),
{
    let id = new_space_id();
    let stored = TrackingSpace {
        id: id.clone(),
        name: name.clone(),
        apps: Vec::new(),
        is_active: false,
        color: color.clone(),
    };
    let r = TrackingSpace { id, name, apps: Vec::new(), is_active: false, color };
    state.spaces.push(stored);
    assert(state.spaces@.drop_last() =~= old(state).spaces@);
    r
}

/// Replaces the settings, leaving spaces and entries alone.
pub fn save_settings(state: &mut AppState, settings: AppSettings)
    ensures
        final(state).settings == settings,
        final(state).spaces == old(state).spaces,
        final(state).entries == old(state).entries,
{
    state.settings = settings;
}

/// The entry's key is (`space_id`, `app_name`, `date`).
pub open spec fn has_key(e: TimeEntry, space_id: Seq<char>, app_name: Seq<char>, date: Seq<char>) -> bool {
    e.space_id@ == space_id && e.app_name@ == app_name && e.date@ == date
}

/// `i` is the first position of `s` whose entry has the given key.
pub open spec fn first_entry_with_key(
    s: Seq<TimeEntry>,
    space_id: Seq<char>,
    app_name: Seq<char>,
    date: Seq<char>,
    i: int,
) -> bool {
    &&& 0 <= i < s.len()
    &&& has_key(s[i], space_id, app_name, date)
    &&& forall|j: int| 0 <= j < i ==> !has_key(#[trigger] s[j], space_id, app_name, date)
}

/// `x + y`, held at `u64::MAX`.
pub open spec fn saturated(x: int) -> int {
    if x > u64::MAX {
        u64::MAX as int
    } else {
        x
    }
}

/// The first position of an entry with the given key, if any.
pub fn find_entry(entries: &Vec<TimeEntry>, space_id: &String, app_name: &String, date: &String) -> (r: Option<usize>)
    ensures
        r matches Some(i) ==> first_entry_with_key(entries@, space_id@, app_name@, date@, i as int),
        r is None ==> forall|i: int|
            0 <= i < entries@.len() ==> !has_key(#[trigger] entries@[i], space_id@, app_name@, date@),
{
    let mut i: usize = 0;
    while i < entries.len()
        invariant
            i <= entries@.len(),
            forall|j: int| 0 <= j < i ==> !has_key(#[trigger] entries@[j], space_id@, app_name@, date@),
        decreases entries@.len() - i,
    {
        let e = &entries[i];
        if e.space_id == *space_id && e.app_name == *app_name && e.date == *date {
            return Some(i);
        }
        i += 1;
    }
    None
}

/// `after` is `before` with `d` seconds added for the key (`space_id`,
/// `app_name`, `day`): to the first entry with that key, held at `u64::MAX`,
/// or as a new entry at the end. Zero seconds change nothing.
pub open spec fn records(
    before: Seq<TimeEntry>,
    after: Seq<TimeEntry>,
    space_id: String,
    app_name: String,
    day: String,
    d: u64,
) -> bool {
    &&& d == 0 ==> after == before
    &&& d > 0 ==> forall|i: int|
        first_entry_with_key(before, space_id@, app_name@, day@, i) ==> after == before.update(
            i,
            TimeEntry { duration: saturated(before[i].duration + d) as u64, ..before[i] },
        )
    &&& d > 0 && (forall|i: int|
        0 <= i < before.len() ==> !has_key(#[trigger] before[i], space_id@, app_name@, day@))
        ==> after == before.push(
        TimeEntry { space_id: space_id, app_name: app_name, date: day, duration: d },
    )
}

/// Adds `duration_secs` to the entry for (`space_id`, `app_name`, `today`),
/// creating it when absent. A zero duration changes nothing. The sum is held
/// at `u64::MAX`, so an accumulator never decreases.
pub fn record_time(
    state: &mut AppState,
    space_id: &String,
    app_name: &String,
    today: &String,
    duration_secs: u64,
)
    ensures
        records(old(state).entries@, final(state).entries@, *space_id, *app_name, *today, duration_secs),
        final(state).spaces == old(state).spaces,
        final(state).settings == old(state).settings,
{
    if duration_secs == 0 {
        return;
    }
    match find_entry(&state.entries, space_id, app_name, today) {
        Some(i) => {
            let total = state.entries[i].duration.saturating_add(duration_secs);
            state.entries[i].duration = total;
            assert(final(state).entries@ =~= old(state).entries@.update(
                i as int,
                TimeEntry {
                    duration: saturated(old(state).entries@[i as int].duration + duration_secs) as u64,
                    ..old(state).entries@[i as int]
                },
            ));
            return;
        },
        None => {},
    }
    state.entries.push(
        TimeEntry {
            space_id: space_id.clone(),
            app_name: app_name.clone(),
            date: today.clone(),
            duration: duration_secs,
        },
    );
}

/// Seconds logged on day `day` for application `app`, over all spaces.
pub open spec fn app_total(entries: Seq<TimeEntry>, day: Seq<char>, app: Seq<char>) -> int
    decreases entries.len(),
{
    if entries.len() == 0 {
        0
    } else {
        let e = entries.last();
        app_total(entries.drop_last(), day, app) + if e.date@ == day && e.app_name@ == app {
            e.duration as int
        } else {
            0
        }
    }
}

/// Some entry of day `day` is for application `app`.
pub open spec fn logged_on(entries: Seq<TimeEntry>, day: Seq<char>, app: Seq<char>) -> bool {
    exists|k: int| 0 <= k < entries.len() && (#[trigger] entries[k]).date@ == day && entries[k].app_name@ == app
}

/// `stats` maps each application logged on `day` to its total seconds (held at
/// `u64::MAX`), once per application and for no other application.
pub open spec fn is_day_stats(entries: Seq<TimeEntry>, day: Seq<char>, stats: Seq<(String, u64)>) -> bool {
    &&& forall|a: int, b: int|
        0 <= a < stats.len() && 0 <= b < stats.len() && a != b ==> (#[trigger] stats[a]).0@
            != (#[trigger] stats[b]).0@
    &&& forall|a: int|
        0 <= a < stats.len() ==> (#[trigger] stats[a]).1 == saturated(
            app_total(entries, day, stats[a].0@),
        )
    &&& forall|a: int| 0 <= a < stats.len() ==> logged_on(entries, day, (#[trigger] stats[a]).0@)
    &&& forall|k: int|
        #![trigger entries[k]]
        0 <= k < entries.len() && entries[k].date@ == day ==> exists|a: int|
            #![trigger stats[a]]
            0 <= a < stats.len() && stats[a].0@ == entries[k].app_name@
}

fn find_stat(stats: &Vec<(String, u64)>, app: &String) -> (r: Option<usize>)
    ensures
        r matches Some(i) ==> i < stats@.len() && stats@[i as int].0@ == app@,
        r is None ==> forall|i: int| 0 <= i < stats@.len() ==> (#[trigger] stats@[i]).0@ != app@,
{
    let mut i: usize = 0;
    while i < stats.len()
        invariant
            i <= stats@.len(),
            forall|j: int| 0 <= j < i ==> (#[trigger] stats@[j]).0@ != app@,
        decreases stats@.len() - i,
    {
        if stats[i].0 == *app {
            return Some(i);
        }
        i += 1;
    }
    None
}

/// Totals per application of the entries dated `today`, summed across spaces.
pub fn today_stats(entries: &Vec<TimeEntry>, today: &String) -> (r: Vec<(String, u64)>)
    ensures
        is_day_stats(entries@, today@, r@),
{
    let mut stats: Vec<(String, u64)> = Vec::new();
    let mut k: usize = 0;
    while k < entries.len()
        invariant
            k <= entries@.len(),
            is_day_stats(entries@.take(k as int), today@, stats@),
        decreases entries@.len() - k,
    {
        let e = &entries[k];
        let ghost pre = entries@.take(k as int);
        let ghost post = entries@.take(k + 1);
        let ghost old_stats = stats@;
        proof {
            assert(post.drop_last() =~= pre);
            assert(post.last() == *e);
            assert forall|j: int| 0 <= j < pre.len() implies pre[j] == post[j] by {}
        }
        if e.date == *today {
            match find_stat(&stats, &e.app_name) {
                Some(i) => {
                    let name = stats[i].0.clone();
                    let total = stats[i].1.saturating_add(e.duration);
                    stats.set(i, (name, total));
                    proof {
                        assert forall|a: int| 0 <= a < stats@.len() implies (#[trigger] stats@[a]).1
                            == saturated(app_total(post, today@, stats@[a].0@)) by {
                            assert(old_stats[a].0@ == stats@[a].0@);
                        }
                        assert forall|a: int| 0 <= a < stats@.len() implies logged_on(post, today@, (#[trigger] stats@[a]).0@) by {
                            assert(old_stats[a].0@ == stats@[a].0@);
                            assert(logged_on(pre, today@, old_stats[a].0@));
                            let m = choose|m: int|
                                0 <= m < pre.len() && (#[trigger] pre[m]).date@ == today@
                                    && pre[m].app_name@ == old_stats[a].0@;
                            assert(post[m] == pre[m]);
                        }
                        assert forall|m: int| 0 <= m < post.len() && (#[trigger] post[m]).date@ == today@ implies exists|a: int|
                            0 <= a < stats@.len() && (#[trigger] stats@[a]).0@ == post[m].app_name@ by {
                            if m < pre.len() {
                                assert(post[m] == pre[m]);
                                let a = choose|a: int|
                                    0 <= a < old_stats.len() && (#[trigger] old_stats[a]).0@ == pre[m].app_name@;
                                assert(stats@[a].0@ == old_stats[a].0@);
                            } else {
                                assert(stats@[i as int].0@ == post[m].app_name@);
                            }
                        }
                        assert(is_day_stats(post, today@, stats@));
                    }
                },
                None => {
                    stats.push((e.app_name.clone(), e.duration));
                    proof {
                        assert(app_total(pre, today@, e.app_name@) == 0) by {
                            lemma_app_total_absent(pre, today@, e.app_name@, old_stats);
                        }
                        assert forall|a: int| 0 <= a < stats@.len() implies (#[trigger] stats@[a]).1
                            == saturated(app_total(post, today@, stats@[a].0@)) by {
                            if a < old_stats.len() {
                                assert(old_stats[a] == stats@[a]);
                            }
                        }
                        assert forall|a: int| 0 <= a < stats@.len() implies logged_on(post, today@, (#[trigger] stats@[a]).0@) by {
                            if a < old_stats.len() {
                                assert(old_stats[a] == stats@[a]);
                                assert(logged_on(pre, today@, old_stats[a].0@));
                                let m = choose|m: int|
                                    0 <= m < pre.len() && (#[trigger] pre[m]).date@ == today@
                                        && pre[m].app_name@ == old_stats[a].0@;
                                assert(post[m] == pre[m]);
                            } else {
                                assert(post[k as int] == *e);
                            }
                        }
                        assert forall|m: int| 0 <= m < post.len() && (#[trigger] post[m]).date@ == today@ implies exists|a: int|
                            0 <= a < stats@.len() && (#[trigger] stats@[a]).0@ == post[m].app_name@ by {
                            if m < pre.len() {
                                assert(post[m] == pre[m]);
                                let a = choose|a: int|
                                    0 <= a < old_stats.len() && (#[trigger] old_stats[a]).0@ == pre[m].app_name@;
                                assert(stats@[a] == old_stats[a]);
                            } else {
                                assert(stats@[old_stats.len() as int].0@ == post[m].app_name@);
                            }
                        }
                        assert(is_day_stats(post, today@, stats@));
                    }
                },
            }
        } else {
            proof {
                lemma_day_stats_skip(pre, post, today@, stats@);
            }
        }
        k += 1;
    }
    assert(entries@.take(entries@.len() as int) =~= entries@);
    stats
}

/// An entry of another day leaves the stats as they are.
proof fn lemma_day_stats_skip(
    pre: Seq<TimeEntry>,
    post: Seq<TimeEntry>,
    day: Seq<char>,
    stats: Seq<(String, u64)>,
)
    requires
        post.len() == pre.len() + 1,
        post.drop_last() == pre,
        post.last().date@ != day,
        is_day_stats(pre, day, stats),
    ensures
        is_day_stats(post, day, stats),
{
    assert forall|j: int| 0 <= j < pre.len() implies pre[j] == post[j] by {
        assert(post.drop_last()[j] == post[j]);
    }
    assert forall|a: int| 0 <= a < stats.len() implies (#[trigger] stats[a]).1
        == saturated(app_total(post, day, stats[a].0@)) by {
        assert(app_total(post, day, stats[a].0@) == app_total(pre, day, stats[a].0@));
    }
    assert forall|m: int| 0 <= m < post.len() && (#[trigger] post[m]).date@ == day implies exists|a: int|
        0 <= a < stats.len() && (#[trigger] stats[a]).0@ == post[m].app_name@ by {
        assert(m < pre.len());
        assert(post[m] == pre[m]);
    }
    assert forall|a: int| 0 <= a < stats.len() implies logged_on(post, day, (#[trigger] stats[a]).0@) by {
        assert(logged_on(pre, day, stats[a].0@));
        let m = choose|m: int| 0 <= m < pre.len() && (#[trigger] pre[m]).date@ == day && pre[m].app_name@ == stats[a].0@;
        assert(post[m] == pre[m]);
    }
}

/// An application absent from the stats so far has logged nothing yet.
proof fn lemma_app_total_absent(
    entries: Seq<TimeEntry>,
    day: Seq<char>,
    app: Seq<char>,
    stats: Seq<(String, u64)>,
)
    requires
        forall|k: int|
            0 <= k < entries.len() && (#[trigger] entries[k]).date@ == day ==> exists|a: int|
                0 <= a < stats.len() && (#[trigger] stats[a]).0@ == entries[k].app_name@,
        forall|a: int| 0 <= a < stats.len() ==> (#[trigger] stats[a]).0@ != app,
    ensures
        app_total(entries, day, app) == 0,
    decreases entries.len(),
{
    if entries.len() > 0 {
        let init = entries.drop_last();
        assert forall|k: int| 0 <= k < init.len() && (#[trigger] init[k]).date@ == day implies exists|a: int|
            0 <= a < stats.len() && (#[trigger] stats[a]).0@ == init[k].app_name@ by {
            assert(init[k] == entries[k]);
        }
        lemma_app_total_absent(init, day, app, stats);
        let e = entries.last();
        if e.date@ == day && e.app_name@ == app {
            assert(entries[entries.len() - 1] == e);
            let a = choose|a: int| 0 <= a < stats.len() && (#[trigger] stats[a]).0@ == e.app_name@;
        }
    }
}

/// Relies on chrono's `Local::now` and its `%Y-%m-%d` formatting: the local
/// calendar day. It depends on the clock and the time zone, so nothing is
/// promised of its value.
#[verifier::external_body]
fn local_today() -> (r: String) {
    chrono::Local::now().format("%Y-%m-%d").to_string()
}

/// Adds `duration_secs` to the entry for (`space_id`, `app_name`) on the local
/// current day, as `record_time` does for a given day.
pub fn record_time_today(state: &mut AppState, space_id: &String, app_name: &String, duration_secs: u64)
    ensures
        exists|day: String|
            records(old(state).entries@, final(state).entries@, *space_id, *app_name, day, duration_secs),
        final(state).spaces == old(state).spaces,
        final(state).settings == old(state).settings,
{
    let today = local_today();
    record_time(state, space_id, app_name, &today, duration_secs);
}

/// Totals per application of the entries dated on the local current day.
pub fn get_today_stats(state: &AppState) -> (r: Vec<(String, u64)>)
    ensures
        exists|day: Seq<char>| is_day_stats(state.entries@, day, r@),
{
    let today = local_today();
    today_stats(&state.entries, &today)
}

} // verus!
