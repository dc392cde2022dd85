use vstd::prelude::*;
use crate::calendar::{Calendar, CalendarView};
use crate::reducer::{run, step, Action, App, AppView};

verus! {

/// A calendar from the network, applied before a calendar from the cache,
/// is kept: the cache calendar is rejected and the state is the one the
/// network calendar gave.
pub proof fn lemma_cache_after_network_is_rejected(s: AppView, network: Calendar, cache: Calendar)
    ensures
        step(step(s, Action::NetworkReady(network)), Action::CacheReady(cache)) == step(s, Action::NetworkReady(network)),
        step(step(s, Action::NetworkReady(network)), Action::CacheReady(cache)).calendar
            == (CalendarView { dates: network@.dates, current: 0 }),
{
}

/// A calendar from the cache, applied while no network calendar has
/// arrived, is shown; a network calendar that comes after it replaces it.
pub proof fn lemma_cache_before_network_is_shown(s: AppView, cache: Calendar, network: Calendar)
    requires
        !s.have_received_network,
    ensures
        step(s, Action::CacheReady(cache)).calendar.dates == cache@.dates,
        step(step(s, Action::CacheReady(cache)), Action::NetworkReady(network)).calendar
            == (CalendarView { dates: network@.dates, current: 0 }),
{
}

/// Whether `a` brings a new calendar.
pub open spec fn is_load(a: Action) -> bool {
    a is NetworkReady || a is CacheReady
}

/// The days of `a` and `b` are the same dates with the same events; only
/// the cursors may differ.
pub open spec fn same_days(a: CalendarView, b: CalendarView) -> bool {
    &&& a.dates.len() == b.dates.len()
    &&& forall|i: int| 0 <= i < a.dates.len() ==>
        (#[trigger] a.dates[i]).date == b.dates[i].date && a.dates[i].events == b.dates[i].events
}

/// Actions that bring no calendar keep the days and their events: a
/// calendar, once shown, stays until the next load replaces it.
pub proof fn lemma_only_loads_change_days(s: AppView, acts: Seq<Action>)
    requires
        s.calendar.cursors_ok(),
        forall|i: int| 0 <= i < acts.len() ==> !is_load(#[trigger] acts[i]),
    ensures
        same_days(run(s, acts).calendar, s.calendar),
        run(s, acts).calendar.cursors_ok(),
        run(s, acts).have_received_network == s.have_received_network,
    decreases acts.len(),
{
    if acts.len() > 0 {
        let prev = acts.drop_last();
        assert forall|i: int| 0 <= i < prev.len() implies !is_load(#[trigger] prev[i]) by {
            assert(prev[i] == acts[i]);
        }
        lemma_only_loads_change_days(s, prev);
        assert(!is_load(acts[acts.len() - 1]));
        lemma_navigation_in_bounds(run(s, prev), acts.last());
    }
}

/// Moving between days or items keeps every cursor within its list, and
/// does nothing when there is no day.
pub proof fn lemma_navigation_in_bounds(s: AppView, a: Action)
    requires
        s.calendar.cursors_ok(),
        !is_load(a),
    ensures
        step(s, a).calendar.cursors_ok(),
        same_days(step(s, a).calendar, s.calendar),
        step(s, a).have_received_network == s.have_received_network,
        s.calendar.dates.len() == 0 ==> step(s, a).calendar == s.calendar,
{
    let t = step(s, a).calendar;
    if s.calendar.dates.len() > 0 && (a is NextItem || a is PrevItem) {
        assert forall|i: int| 0 <= i < t.dates.len() implies 0 <= (#[trigger] t.dates[i]).selected < t.dates[i].events.len() by {
            if i != s.calendar.current {
                assert(t.dates[i] == s.calendar.dates[i]);
            }
        }
    }
}

/// A well-formed state has its cursors within their lists.
pub proof fn lemma_wf_cursors_ok(app: App)
    requires
        app.wf(),
    ensures
        app@.calendar.cursors_ok(),
{
    let v = app@.calendar;
    assert forall|i: int| 0 <= i < v.dates.len() implies 0 <= (#[trigger] v.dates[i]).selected < v.dates[i].events.len() by {
        assert(app.calendar.dates@[i].wf());
    }
}

} // verus!
