use vstd::prelude::*;
use crate::event::{CalendarEvent, LocalDateTime};

verus! {

/// One local calendar date and its events, ordered by due time, with the
/// index of the highlighted event.
#[derive(Debug)]
pub struct CalendarDate {
    pub date: i64,
    pub events: Vec<CalendarEvent>,
    pub selected: usize,
}

/// The days that hold events, in ascending date order, with the index of
/// the day in view.
#[derive(Debug)]
pub struct Calendar {
    pub dates: Vec<CalendarDate>,
    pub current_date_index: usize,
}

/// What a day holds, as mathematical values.
pub struct DayView {
    pub date: i64,
    pub events: Seq<CalendarEvent>,
    pub selected: int,
}

/// What a calendar holds, as mathematical values.
pub struct CalendarView {
    pub dates: Seq<DayView>,
    pub current: int,
}

impl View for CalendarDate {
    type V = DayView;

    open spec fn view(&self) -> DayView {
        DayView { date: self.date, events: self.events@, selected: self.selected as int }
    }
}

impl View for Calendar {
    type V = CalendarView;

    open spec fn view(&self) -> CalendarView {
        CalendarView {
            dates: self.dates@.map_values(|d: CalendarDate| d@),
            current: self.current_date_index as int,
        }
    }
}

impl CalendarView {
    /// The day cursor is a valid index, or 0 when there is no day, and
    /// every day holds an event and a valid item cursor.
    pub open spec fn cursors_ok(self) -> bool {
        &&& (self.dates.len() == 0 ==> self.current == 0)
        &&& (self.dates.len() > 0 ==> 0 <= self.current < self.dates.len())
        &&& forall|i: int| 0 <= i < self.dates.len() ==>
            0 <= (#[trigger] self.dates[i]).selected < self.dates[i].events.len()
    }
}

/// Every event of `s` is due no later than every event after it.
pub open spec fn sorted_by_due(s: Seq<CalendarEvent>) -> bool {
    forall|i: int, j: int| 0 <= i < j < s.len() ==> (#[trigger] s[i]).due_at.no_later((#[trigger] s[j]).due_at)
}

/// The events of `s` that are due at exactly `t`, in the order of `s`.
pub open spec fn with_due(s: Seq<CalendarEvent>, t: LocalDateTime) -> Seq<CalendarEvent>
    decreases s.len(),
{
    if s.len() == 0 {
        seq![]
    } else if s.last().due_at == t {
        with_due(s.drop_last(), t).push(s.last())
    } else {
        with_due(s.drop_last(), t)
    }
}

/// `out` holds the events of `input` ordered by due time, and events that
/// are due at the same time keep the order they had in `input`.
pub open spec fn stable_sort_of(out: Seq<CalendarEvent>, input: Seq<CalendarEvent>) -> bool {
    sorted_by_due(out) && forall|t: LocalDateTime| #[trigger] with_due(out, t) == with_due(input, t)
}

/// The events of all days, day after day.
pub open spec fn flatten(dates: Seq<CalendarDate>) -> Seq<CalendarEvent>
    decreases dates.len(),
{
    if dates.len() == 0 {
        seq![]
    } else {
        flatten(dates.drop_last()) + dates.last().events@
    }
}

impl CalendarDate {
    /// Holds at least one event, all on this date and ordered by due time,
    /// and the highlighted index points at one of them.
    pub open spec fn wf(&self) -> bool {
        &&& self.events@.len() > 0
        &&& self.selected < self.events@.len()
        &&& forall|i: int| 0 <= i < self.events@.len() ==> (#[trigger] self.events@[i]).due_at.day == self.date
        &&& sorted_by_due(self.events@)
    }
}

impl Calendar {
    /// The day cursor is a valid index, or 0 when there is no day.
    pub open spec fn cursor_ok(&self) -> bool {
        if self.dates@.len() == 0 {
            self.current_date_index == 0
        } else {
            self.current_date_index < self.dates@.len()
        }
    }

    /// Every day is well formed, the days are in strictly ascending date
    /// order, and the day cursor is in bounds.
    pub open spec fn wf(&self) -> bool {
        &&& self.cursor_ok()
        &&& forall|i: int| 0 <= i < self.dates@.len() ==> (#[trigger] self.dates@[i]).wf()
        &&& forall|i: int, j: int| 0 <= i < j < self.dates@.len() ==> (#[trigger] self.dates@[i]).date < (#[trigger] self.dates@[j]).date
    }

    /// A calendar without days.
    pub fn new() -> (r: Calendar)
        ensures
            r.wf(),
            r.dates@.len() == 0,
    {
        Calendar { dates: Vec::new(), current_date_index: 0 }
    }
}

proof fn lemma_with_due_append(a: Seq<CalendarEvent>, b: Seq<CalendarEvent>, t: LocalDateTime)
    ensures
        with_due(a + b, t) == with_due(a, t) + with_due(b, t),
    decreases b.len(),
{
    if b.len() == 0 {
        assert(a + b =~= a);
        assert(with_due(a, t) + with_due(b, t) =~= with_due(a, t));
    } else {
        lemma_with_due_append(a, b.drop_last(), t);
        assert((a + b).drop_last() =~= a + b.drop_last());
        assert((a + b).last() == b.last());
        if b.last().due_at == t {
            assert(with_due(a, t) + with_due(b.drop_last(), t).push(b.last()) =~= (with_due(a, t) + with_due(b.drop_last(), t)).push(b.last()));
        }
    }
}

proof fn lemma_with_due_none(s: Seq<CalendarEvent>, t: LocalDateTime)
    requires
        forall|i: int| 0 <= i < s.len() ==> (#[trigger] s[i]).due_at != t,
    ensures
        with_due(s, t) == Seq::<CalendarEvent>::empty(),
    decreases s.len(),
{
    if s.len() > 0 {
        assert(s.last() == s[s.len() - 1]);
        lemma_with_due_none(s.drop_last(), t);
    }
}

/// Inserting `x` at `p`, after every event due no later than it and before
/// every event due strictly later, keeps a stable order.
proof fn lemma_insert_stable(s: Seq<CalendarEvent>, input: Seq<CalendarEvent>, x: CalendarEvent, p: int)
    requires
        stable_sort_of(s, input),
        0 <= p <= s.len(),
        forall|k: int| 0 <= k < p ==> (#[trigger] s[k]).due_at.no_later(x.due_at),
        forall|k: int| p <= k < s.len() ==> !(#[trigger] s[k]).due_at.no_later(x.due_at),
    ensures
        stable_sort_of(s.insert(p, x), input.push(x)),
{
    let out = s.insert(p, x);
    let pre = s.take(p);
    let post = s.skip(p);
    assert(out =~= pre + seq![x] + post);
    assert(s =~= pre + post);
    assert forall|t: LocalDateTime| #[trigger] with_due(out, t) == with_due(input.push(x), t) by {
        lemma_with_due_append(pre + seq![x], post, t);
        lemma_with_due_append(pre, seq![x], t);
        lemma_with_due_append(pre, post, t);
        assert(input.push(x).drop_last() =~= input);
        assert(seq![x].drop_last() =~= Seq::<CalendarEvent>::empty());
        assert(seq![x].last() == x);
        assert(with_due(seq![x].drop_last(), t) =~= Seq::<CalendarEvent>::empty());
        if x.due_at == t {
            assert forall|i: int| 0 <= i < post.len() implies (#[trigger] post[i]).due_at != t by {
                assert(post[i] == s[p + i]);
            }
            lemma_with_due_none(post, t);
            assert(with_due(seq![x], t) =~= seq![x]);
            assert(with_due(pre, t) + seq![x] + Seq::<CalendarEvent>::empty() =~= (with_due(pre, t) + Seq::<CalendarEvent>::empty()).push(x));
        } else {
            assert(with_due(seq![x], t) =~= Seq::<CalendarEvent>::empty());
            assert(with_due(pre, t) + Seq::<CalendarEvent>::empty() =~= with_due(pre, t));
        }
    }
    assert forall|i: int, j: int| 0 <= i < j < out.len() implies (#[trigger] out[i]).due_at.no_later((#[trigger] out[j]).due_at) by {
        if i < p && j < p {
            assert(out[i] == s[i] && out[j] == s[j]);
        } else if i < p && j == p {
        } else if i < p {
            assert(out[i] == s[i] && out[j] == s[j - 1]);
            assert(s[i].due_at.no_later(s[j - 1].due_at));
        } else if i == p {
            assert(out[j] == s[j - 1]);
        } else {
            assert(out[i] == s[i - 1] && out[j] == s[j - 1]);
            assert(s[i - 1].due_at.no_later(s[j - 1].due_at));
        }
    }
}

/// Orders events by due time, keeping the input order among equal times.
pub fn sort_events(events: Vec<CalendarEvent>) -> (r: Vec<CalendarEvent>)
    ensures
        stable_sort_of(r@, events@),
{
    let ghost input = events@;
    let mut rest = events;
    let mut sorted: Vec<CalendarEvent> = Vec::new();
    assert(input.take(0) =~= Seq::<CalendarEvent>::empty());
    while rest.len() > 0
        invariant
            input.len() == sorted@.len() + rest@.len(),
            rest@ == input.skip(sorted@.len() as int),
            stable_sort_of(sorted@, input.take(sorted@.len() as int)),
        decreases rest@.len(),
    {
        let ghost done = sorted@.len() as int;
        let x = rest.remove(0);
        assert(x == input[done]);
        assert(rest@ =~= input.skip(done + 1));
        let mut p: usize = sorted.len();
        while p > 0 && !sorted[p - 1].due_at.no_later_than(&x.due_at)
            invariant
                p <= sorted@.len(),
                sorted_by_due(sorted@),
                forall|k: int| p <= k < sorted@.len() ==> !(#[trigger] sorted@[k]).due_at.no_later(x.due_at),
            decreases p,
        {
            p = p - 1;
        }
        assert forall|k: int| 0 <= k < p implies (#[trigger] sorted@[k]).due_at.no_later(x.due_at) by {
            assert(sorted@[p - 1].due_at.no_later(x.due_at));
            if k < p - 1 {
                assert(sorted@[k].due_at.no_later(sorted@[p - 1].due_at));
            }
        }
        proof {
            lemma_insert_stable(sorted@, input.take(done), x, p as int);
            assert(input.take(done).push(x) =~= input.take(done + 1));
        }
        sorted.insert(p, x);
    }
    assert(input.take(input.len() as int) =~= input);
    sorted
}

/// Days built from a run of events sorted by due time: days ascending,
/// each well formed with its first event highlighted, and together holding
/// exactly the run.
pub open spec fn groups(dates: Seq<CalendarDate>, sorted: Seq<CalendarEvent>) -> bool {
    &&& flatten(dates) == sorted
    &&& forall|i: int| 0 <= i < dates.len() ==> (#[trigger] dates[i]).wf() && dates[i].selected == 0
    &&& forall|i: int, j: int| 0 <= i < j < dates.len() ==> (#[trigger] dates[i]).date < (#[trigger] dates[j]).date
}

proof fn lemma_flatten_push(dates: Seq<CalendarDate>, d: CalendarDate)
    ensures
        flatten(dates.push(d)) == flatten(dates) + d.events@,
{
    assert(dates.push(d).drop_last() =~= dates);
}

/// Splits events sorted by due time into days of one local date each.
pub fn group_by_date(sorted: Vec<CalendarEvent>) -> (r: Vec<CalendarDate>)
    requires
        sorted_by_due(sorted@),
    ensures
        groups(r@, sorted@),
{
    let ghost all = sorted@;
    let mut rest = sorted;
    let mut dates: Vec<CalendarDate> = Vec::new();
    let mut cur: Vec<CalendarEvent> = Vec::new();
    let mut cur_day: i64 = 0;
    let ghost mut done: int = 0;
    let ghost mut start: int = 0;
    while rest.len() > 0
        invariant
            sorted_by_due(all),
            0 <= start <= done <= all.len(),
            rest@ == all.skip(done),
            cur@ == all.subrange(start, done),
            flatten(dates@) == all.take(start),
            done > 0 ==> cur@.len() > 0,
            forall|i: int| 0 <= i < cur@.len() ==> (#[trigger] cur@[i]).due_at.day == cur_day,
            forall|i: int| 0 <= i < dates@.len() ==> (#[trigger] dates@[i]).wf() && dates@[i].selected == 0,
            forall|i: int, j: int| 0 <= i < j < dates@.len() ==> (#[trigger] dates@[i]).date < (#[trigger] dates@[j]).date,
            cur@.len() > 0 ==> forall|i: int| 0 <= i < dates@.len() ==> (#[trigger] dates@[i]).date < cur_day,
        decreases rest@.len(),
    {
        let x = rest.remove(0);
        assert(x == all[done]);
        assert(rest@ =~= all.skip(done + 1));
        if cur.len() > 0 && x.due_at.day != cur_day {
            assert(cur@[cur@.len() - 1] == all[done - 1]);
            assert(all[done - 1].due_at.no_later(all[done].due_at));
            let ghost old_dates = dates@;
            let ghost events = cur@;
            assert forall|i: int, j: int| 0 <= i < j < events.len() implies (#[trigger] events[i]).due_at.no_later((#[trigger] events[j]).due_at) by {
                assert(events[i] == all[start + i] && events[j] == all[start + j]);
            }
            let d = CalendarDate { date: cur_day, events: cur, selected: 0 };
            dates.push(d);
            proof {
                lemma_flatten_push(old_dates, d);
                assert(all.take(start) + all.subrange(start, done) =~= all.take(done));
                assert(dates@[dates@.len() - 1] == d);
            }
            cur_day = x.due_at.day;
            cur = vec![x];
            proof {
                start = done;
                assert(cur@ =~= all.subrange(start, done + 1));
            }
        } else {
            if cur.len() == 0 {
                cur_day = x.due_at.day;
            } else {
                assert(cur@[0] == all[start]);
            }
            cur.push(x);
            assert(cur@ =~= all.subrange(start, done + 1));
        }
        proof {
            done = done + 1;
        }
    }
    if cur.len() > 0 {
        let ghost old_dates = dates@;
        let ghost events = cur@;
        assert forall|i: int, j: int| 0 <= i < j < events.len() implies (#[trigger] events[i]).due_at.no_later((#[trigger] events[j]).due_at) by {
            assert(events[i] == all[start + i] && events[j] == all[start + j]);
        }
        let d = CalendarDate { date: cur_day, events: cur, selected: 0 };
        dates.push(d);
        proof {
            lemma_flatten_push(old_dates, d);
            assert(all.take(start) + all.subrange(start, done) =~= all.take(done));
            assert(dates@[dates@.len() - 1] == d);
        }
    } else {
        assert(all.take(start) =~= all.take(done));
    }
    assert(all.take(done) =~= all);
    dates
}

/// Builds the calendar of a list of events: one day per local date that
/// has events, days in ascending order, each day's events ordered by due
/// time with ties kept in input order, every cursor at 0.
pub fn build_calendar(events: Vec<CalendarEvent>) -> (r: Calendar)
    ensures
        r.wf(),
        r.current_date_index == 0,
        forall|i: int| 0 <= i < r.dates@.len() ==> (#[trigger] r.dates@[i]).selected == 0,
        stable_sort_of(flatten(r.dates@), events@),
{
    let sorted = sort_events(events);
    let dates = group_by_date(sorted);
    Calendar { dates, current_date_index: 0 }
}

} // verus!
