use vstd::prelude::*;
use crate::calendar::{flatten, Calendar, CalendarDate, CalendarView, DayView};
use crate::event::CalendarEvent;

verus! {

/// Width of a due time as the table shows it.
pub const DUE_TEXT_WIDTH: usize = 7;

/// One input of the reducer.
#[derive(Debug)]
pub enum Action {
    Tick,
    Render,
    Quit,
    /// A calendar built from a fresh network fetch.
    NetworkReady(Calendar),
    /// A calendar built from the cached copy of an earlier fetch.
    CacheReady(Calendar),
    NextItem,
    PrevItem,
    NextDay,
    PrevDay,
    OpenSelected,
    /// An input that asks for nothing.
    Noop,
}

/// An input of the terminal driver.
#[derive(Clone, Copy, Debug, PartialEq, Eq, Structural)]
pub enum Event {
    Error,
    Tick,
    Render,
    /// A key that types a character.
    Key(char),
    /// Any other key.
    OtherKey,
}

/// What the run loop must do after applying one action.
#[derive(Debug)]
pub enum Effect {
    Nothing,
    Repaint,
    /// Open this address in a browser.
    Open(String),
}

/// The viewer's state, owned by the run loop.
#[derive(Debug)]
pub struct App {
    pub calendar: Calendar,
    pub have_received_network: bool,
    pub should_quit: bool,
    /// Widest course name, widest title, width of a due time.
    pub longest_item_lens: (usize, usize, usize),
}

/// What the state holds, as mathematical values.
pub struct AppView {
    pub calendar: CalendarView,
    pub have_received_network: bool,
    pub should_quit: bool,
    pub longest_item_lens: (usize, usize, usize),
}

impl View for App {
    type V = AppView;

    open spec fn view(&self) -> AppView {
        AppView {
            calendar: self.calendar@,
            have_received_network: self.have_received_network,
            should_quit: self.should_quit,
            longest_item_lens: self.longest_item_lens,
        }
    }
}

impl Action {
    /// A calendar carried by a load is well formed.
    pub open spec fn wf(&self) -> bool {
        match self {
            Action::NetworkReady(c) => c.wf(),
            Action::CacheReady(c) => c.wf(),
            _ => true,
        }
    }
}

impl App {
    pub open spec fn wf(&self) -> bool {
        self.calendar.wf()
    }

    /// The state before any data has arrived.
    pub fn new() -> (r: App)
        ensures
            r.wf(),
            r.calendar.dates@.len() == 0,
            !r.have_received_network,
            !r.should_quit,
            r.longest_item_lens == (0usize, 0usize, 0usize),
    {
        App {
            calendar: Calendar::new(),
            have_received_network: false,
            should_quit: false,
            longest_item_lens: (0, 0, 0),
        }
    }
}

/// Longest course name, in characters, among `s`.
pub open spec fn longest_course(s: Seq<CalendarEvent>) -> nat
    decreases s.len(),
{
    if s.len() == 0 {
        0
    } else {
        let m = longest_course(s.drop_last());
        if s.last().course_name@.len() > m { s.last().course_name@.len() } else { m }
    }
}

/// Longest title, in characters, among `s`.
pub open spec fn longest_title(s: Seq<CalendarEvent>) -> nat
    decreases s.len(),
{
    if s.len() == 0 {
        0
    } else {
        let m = longest_title(s.drop_last());
        if s.last().title@.len() > m { s.last().title@.len() } else { m }
    }
}

/// The column widths for the events of `dates`.
pub open spec fn lens_of(dates: Seq<CalendarDate>) -> (usize, usize, usize) {
    let all = flatten(dates);
    (
        longest_course(all) as usize,
        longest_title(all) as usize,
        if all.len() == 0 { 0usize } else { DUE_TEXT_WIDTH },
    )
}

/// `i` moved into `[0, n - 1]`, or 0 when `n` is 0.
pub open spec fn clamp(i: int, n: int) -> int {
    if n <= 0 || i < 0 {
        0
    } else if i < n {
        i
    } else {
        n - 1
    }
}

/// The calendar with the day cursor one day later or earlier, saturating;
/// unchanged when there is no day.
pub open spec fn move_day(c: CalendarView, forward: bool) -> CalendarView {
    CalendarView {
        dates: c.dates,
        current: if forward { clamp(c.current + 1, c.dates.len() as int) } else { clamp(c.current - 1, c.dates.len() as int) },
    }
}

/// The calendar with the current day's item cursor one item later or
/// earlier, saturating; unchanged when there is no day.
pub open spec fn move_item(c: CalendarView, forward: bool) -> CalendarView {
    if c.dates.len() == 0 {
        c
    } else {
        let d = c.dates[c.current];
        let s = if forward {
            if d.selected < d.events.len() - 1 { d.selected + 1 } else { d.selected }
        } else {
            if d.selected > 0 { d.selected - 1 } else { d.selected }
        };
        CalendarView {
            dates: c.dates.update(c.current, DayView { date: d.date, events: d.events, selected: s }),
            current: c.current,
        }
    }
}

/// The state after applying `a` to `s`. A network calendar always replaces
/// the current one and resets the day cursor; a cache calendar replaces it
/// only while no network calendar has arrived, and keeps the day cursor
/// as far as the new days allow.
pub open spec fn step(s: AppView, a: Action) -> AppView {
    match a {
        Action::NetworkReady(c) => AppView {
            calendar: CalendarView { dates: c@.dates, current: 0 },
            have_received_network: true,
            should_quit: s.should_quit,
            longest_item_lens: lens_of(c.dates@),
        },
        Action::CacheReady(c) => if s.have_received_network {
            s
        } else {
            AppView {
                calendar: CalendarView {
                    dates: c@.dates,
                    current: clamp(s.calendar.current, c@.dates.len() as int),
                },
                have_received_network: false,
                should_quit: s.should_quit,
                longest_item_lens: lens_of(c.dates@),
            }
        },
        Action::Quit => AppView { should_quit: true, ..s },
        Action::NextDay => AppView { calendar: move_day(s.calendar, true), ..s },
        Action::PrevDay => AppView { calendar: move_day(s.calendar, false), ..s },
        Action::NextItem => AppView { calendar: move_item(s.calendar, true), ..s },
        Action::PrevItem => AppView { calendar: move_item(s.calendar, false), ..s },
        _ => s,
    }
}

/// The address that `a` asks to open in state `s`: the highlighted event
/// of the current day, when there is a day.
pub open spec fn opened_by(s: AppView, a: Action) -> Option<Seq<char>> {
    if a is OpenSelected && s.calendar.dates.len() > 0 {
        let d = s.calendar.dates[s.calendar.current];
        Some(d.events[d.selected].html_url@)
    } else {
        None
    }
}

impl App {
    /// Recomputes the column widths from the events of the calendar.
    pub fn calculate_longest_item_lens(&mut self)
        ensures
            final(self).longest_item_lens == lens_of(old(self).calendar.dates@),
            final(self).calendar == old(self).calendar,
            final(self).have_received_network == old(self).have_received_network,
            final(self).should_quit == old(self).should_quit,
    {
        let ghost dates = self.calendar.dates@;
        let mut course: usize = 0;
        let mut title: usize = 0;
        let mut i: usize = 0;
        assert(dates.take(0) =~= Seq::<CalendarDate>::empty());
        while i < self.calendar.dates.len()
            invariant
                dates == self.calendar.dates@,
                i <= dates.len(),
                course as nat == longest_course(flatten(dates.take(i as int))),
                title as nat == longest_title(flatten(dates.take(i as int))),
            decreases dates.len() - i,
        {
            let events = &self.calendar.dates[i].events;
            let ghost before = flatten(dates.take(i as int));
            let mut j: usize = 0;
            assert(before + events@.take(0) =~= before);
            while j < events.len()
                invariant
                    j <= events@.len(),
                    course as nat == longest_course(before + events@.take(j as int)),
                    title as nat == longest_title(before + events@.take(j as int)),
                decreases events@.len() - j,
            {
                let e = &events[j];
                let ghost next = before + events@.take(j + 1);
                assert(next.drop_last() =~= before + events@.take(j as int));
                assert(next.last() == events@[j as int]);
                let c = e.course_name.as_str().unicode_len();
                let t = e.title.as_str().unicode_len();
                if c > course {
                    course = c;
                }
                if t > title {
                    title = t;
                }
                j = j + 1;
            }
            proof {
                assert(dates.take(i + 1).drop_last() =~= dates.take(i as int));
                assert(events@.take(events@.len() as int) =~= events@);
            }
            i = i + 1;
        }
        assert(dates.take(dates.len() as int) =~= dates);
        let due: usize = if self.has_events() { DUE_TEXT_WIDTH } else { 0 };
        self.longest_item_lens = (course, title, due);
    }

    /// Whether any day holds an event.
    pub fn has_events(&self) -> (r: bool)
        ensures
            r == (flatten(self.calendar.dates@).len() > 0),
    {
        let ghost dates = self.calendar.dates@;
        let mut i: usize = 0;
        assert(dates.take(0) =~= Seq::<CalendarDate>::empty());
        while i < self.calendar.dates.len()
            invariant
                dates == self.calendar.dates@,
                i <= dates.len(),
                flatten(dates.take(i as int)).len() == 0,
            decreases dates.len() - i,
        {
            assert(dates.take(i + 1).drop_last() =~= dates.take(i as int));
            if self.calendar.dates[i].events.len() > 0 {
                proof {
                    lemma_flatten_grows(dates, i as int + 1);
                }
                return true;
            }
            i = i + 1;
        }
        assert(dates.take(dates.len() as int) =~= dates);
        false
    }
}

proof fn lemma_flatten_grows(dates: Seq<CalendarDate>, n: int)
    requires
        0 < n <= dates.len(),
        dates[n - 1].events@.len() > 0,
    ensures
        flatten(dates).len() > 0,
    decreases dates.len(),
{
    if n < dates.len() {
        lemma_flatten_grows(dates.drop_last(), n);
    }
}

/// Moves the current day's item cursor one item later or earlier,
/// saturating at either end.
fn move_selection(cal: &mut Calendar, forward: bool)
    requires
        old(cal).wf(),
    ensures
        final(cal).wf(),
        final(cal)@ == move_item(old(cal)@, forward),
{
    let n = cal.dates.len();
    if n == 0 {
        return;
    }
    let i = cal.current_date_index;
    let ghost before = cal.dates@;
    let mut d = cal.dates.remove(i);
    assert(d == before[i as int]);
    assert(d.wf());
    if forward {
        if d.selected < d.events.len() - 1 {
            d.selected = d.selected + 1;
        }
    } else if d.selected > 0 {
        d.selected = d.selected - 1;
    }
    cal.dates.insert(i, d);
    assert(cal.dates@ =~= before.update(i as int, d));
    assert(cal@.dates =~= move_item(old(cal)@, forward).dates);
    assert forall|k: int| 0 <= k < cal.dates@.len() implies (#[trigger] cal.dates@[k]).wf() by {
        if k != i {
            assert(cal.dates@[k] == before[k]);
        }
    }
    assert forall|a: int, b: int| 0 <= a < b < cal.dates@.len() implies (#[trigger] cal.dates@[a]).date < (#[trigger] cal.dates@[b]).date by {
        assert(cal.dates@[a].date == before[a].date && cal.dates@[b].date == before[b].date);
    }
}

/// Applies one action to the state and says what the run loop must do.
pub fn update(app: &mut App, action: Action) -> (r: Effect)
    requires
        old(app).wf(),
        action.wf(),
    ensures
        final(app).wf(),
        final(app)@ == step(old(app)@, action),
        r is Repaint <==> action is Render,
        r is Open <==> opened_by(old(app)@, action) is Some,
        r matches Effect::Open(u) ==> Some(u@) == opened_by(old(app)@, action),
{
    match action {
        Action::Quit => {
            app.should_quit = true;
            assert(app@ =~= step(old(app)@, Action::Quit));
            Effect::Nothing
        },
        Action::NetworkReady(c) => {
            app.calendar = Calendar { dates: c.dates, current_date_index: 0 };
            app.have_received_network = true;
            app.calculate_longest_item_lens();
            Effect::Nothing
        },
        Action::CacheReady(c) => {
            if !app.have_received_network {
                let n = c.dates.len();
                let keep = app.calendar.current_date_index;
                let cur = if n == 0 { 0 } else if keep < n { keep } else { n - 1 };
                app.calendar = Calendar { dates: c.dates, current_date_index: cur };
                app.calculate_longest_item_lens();
            }
            Effect::Nothing
        },
        Action::NextDay => {
            let n = app.calendar.dates.len();
            if app.calendar.current_date_index + 1 < n {
                app.calendar.current_date_index = app.calendar.current_date_index + 1;
            }
            assert(app@ =~= step(old(app)@, Action::NextDay));
            Effect::Nothing
        },
        Action::PrevDay => {
            if app.calendar.current_date_index > 0 {
                app.calendar.current_date_index = app.calendar.current_date_index - 1;
            }
            assert(app@ =~= step(old(app)@, Action::PrevDay));
            Effect::Nothing
        },
        Action::NextItem => {
            move_selection(&mut app.calendar, true);
            assert(app@ =~= step(old(app)@, Action::NextItem));
            Effect::Nothing
        },
        Action::PrevItem => {
            move_selection(&mut app.calendar, false);
            assert(app@ =~= step(old(app)@, Action::PrevItem));
            Effect::Nothing
        },
        Action::OpenSelected => {
            if app.calendar.dates.len() == 0 {
                Effect::Nothing
            } else {
                let d = &app.calendar.dates[app.calendar.current_date_index];
                assert(d.wf());
                Effect::Open(d.events[d.selected].html_url.clone())
            }
        },
        Action::Render => Effect::Repaint,
        Action::Tick => Effect::Nothing,
        Action::Noop => Effect::Nothing,
    }
}

/// Maps an input of the terminal driver to an action: `q` quits, `j` and
/// `k` move to the next and previous item, `l` and `h` to the next and
/// previous day, `o` opens the highlighted item.
pub fn get_action(event: Event) -> (r: Action)
    ensures
        event == Event::Tick ==> r is Tick,
        event == Event::Render ==> r is Render,
        event == Event::Key('q') ==> r is Quit,
        event == Event::Key('j') ==> r is NextItem,
        event == Event::Key('k') ==> r is PrevItem,
        event == Event::Key('l') ==> r is NextDay,
        event == Event::Key('h') ==> r is PrevDay,
        event == Event::Key('o') ==> r is OpenSelected,
        event is Error || event is OtherKey ==> r is Noop,
        event matches Event::Key(c) && c != 'q' && c != 'j' && c != 'k' && c != 'l' && c != 'h' && c != 'o'
            ==> r is Noop,
{
    match event {
        Event::Error => Action::Noop,
        Event::Tick => Action::Tick,
        Event::Render => Action::Render,
        Event::OtherKey => Action::Noop,
        Event::Key(c) => {
            if c == 'q' {
                Action::Quit
            } else if c == 'k' {
                Action::PrevItem
            } else if c == 'j' {
                Action::NextItem
            } else if c == 'h' {
                Action::PrevDay
            } else if c == 'l' {
                Action::NextDay
            } else if c == 'o' {
                Action::OpenSelected
            } else {
                Action::Noop
            }
        },
    }
}

/// The state after applying `acts` to `s` in order.
pub open spec fn run(s: AppView, acts: Seq<Action>) -> AppView
    decreases acts.len(),
{
    if acts.len() == 0 {
        s
    } else {
        step(run(s, acts.drop_last()), acts.last())
    }
}

/// The addresses that applying `acts` to `s` asks to open, in order.
pub open spec fn opened_in(s: AppView, acts: Seq<Action>) -> Seq<Seq<char>>
    decreases acts.len(),
{
    if acts.len() == 0 {
        seq![]
    } else {
        let before = opened_in(s, acts.drop_last());
        match opened_by(run(s, acts.drop_last()), acts.last()) {
            Some(u) => before.push(u),
            None => before,
        }
    }
}

/// Applies a backlog of actions in arrival order. Returns whether one of
/// them asked for a repaint, which the run loop performs once the whole
/// backlog is applied, and the addresses to open, in order.
pub fn drain(app: &mut App, actions: Vec<Action>) -> (r: (bool, Vec<String>))
    requires
        old(app).wf(),
        forall|i: int| 0 <= i < actions@.len() ==> (#[trigger] actions@[i]).wf(),
    ensures
        final(app).wf(),
        final(app)@ == run(old(app)@, actions@),
        r.0 == exists|i: int| 0 <= i < actions@.len() && (#[trigger] actions@[i]) is Render,
        r.1@.map_values(|u: String| u@) == opened_in(old(app)@, actions@),
{
    let ghost all = actions@;
    let ghost start = app@;
    let mut rest = actions;
    let mut repaint = false;
    let mut urls: Vec<String> = Vec::new();
    let ghost mut done: int = 0;
    assert(all.take(0) =~= Seq::<Action>::empty());
    assert(urls@.map_values(|u: String| u@) =~= Seq::<Seq<char>>::empty());
    while rest.len() > 0
        invariant
            0 <= done <= all.len(),
            rest@ == all.skip(done),
            forall|i: int| 0 <= i < all.len() ==> (#[trigger] all[i]).wf(),
            app.wf(),
            app@ == run(start, all.take(done)),
            repaint == exists|i: int| 0 <= i < done && (#[trigger] all[i]) is Render,
            urls@.map_values(|u: String| u@) == opened_in(start, all.take(done)),
        decreases rest@.len(),
    {
        let a = rest.remove(0);
        assert(a == all[done]);
        assert(rest@ =~= all.skip(done + 1));
        let ghost next = all.take(done + 1);
        assert(next.drop_last() =~= all.take(done));
        assert(next.last() == a);
        let ghost before_urls = urls@;
        let effect = update(app, a);
        match effect {
            Effect::Repaint => {
                repaint = true;
            },
            Effect::Open(u) => {
                urls.push(u);
                assert(urls@.map_values(|u: String| u@) =~= before_urls.map_values(|u: String| u@).push(u@));
            },
            Effect::Nothing => {},
        }
        proof {
            if repaint && !(a is Render) {
                let i = choose|i: int| 0 <= i < done && (#[trigger] all[i]) is Render;
                assert(0 <= i < done + 1 && all[i] is Render);
            }
            if a is Render {
                assert(all[done] is Render);
            }
            done = done + 1;
        }
    }
    assert(all.take(done) =~= all);
    (repaint, urls)
}

} // verus!
