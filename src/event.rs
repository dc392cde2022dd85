use vstd::prelude::*;

verus! {

/// Seconds in one day.
pub const SECONDS_PER_DAY: i64 = 86400;

/// A local, zone-less point in time: a day number counted from
/// 1970-01-01 in local time, the second within that day and the
/// nanosecond within that second.
#[derive(Clone, Copy, Debug, PartialEq, Eq, Structural)]
pub struct LocalDateTime {
    pub day: i64,
    pub second: u32,
    pub nanosecond: u32,
}

impl LocalDateTime {
    /// Whether `self` comes no later than `other`: by day, then second,
    /// then nanosecond.
    pub open spec fn no_later(self, other: LocalDateTime) -> bool {
        self.day < other.day || (self.day == other.day && (self.second < other.second
            || (self.second == other.second && self.nanosecond <= other.nanosecond)))
    }

    /// Second and nanosecond lie within their day and second.
    pub open spec fn wf(self) -> bool {
        self.second < SECONDS_PER_DAY && self.nanosecond < 1_000_000_000
    }

    /// Whether `self` comes no later than `other`.
    pub fn no_later_than(&self, other: &LocalDateTime) -> (r: bool)
        ensures
            r == self.no_later(*other),
    {
        if self.day != other.day {
            self.day < other.day
        } else if self.second != other.second {
            self.second < other.second
        } else {
            self.nanosecond <= other.nanosecond
        }
    }

    /// Hour of the day, 0 to 23.
    pub fn hour(&self) -> (r: u32)
        ensures
            r == self.second / 3600,
            self.wf() ==> r < 24,
    {
        self.second / 3600
    }

    /// Minute of the hour, 0 to 59.
    pub fn minute(&self) -> (r: u32)
        ensures
            r == (self.second % 3600) / 60,
            r < 60,
    {
        (self.second % 3600) / 60
    }
}

/// One planner item, normalized.
#[derive(Clone, Debug)]
pub struct CalendarEvent {
    pub course_name: String,
    pub due_at: LocalDateTime,
    pub title: String,
    pub html_url: String,
    pub submitted: bool,
}

/// What a `CalendarEvent` holds, as mathematical values.
pub struct EventView {
    pub course_name: Seq<char>,
    pub due_at: LocalDateTime,
    pub title: Seq<char>,
    pub html_url: Seq<char>,
    pub submitted: bool,
}

impl View for CalendarEvent {
    type V = EventView;

    open spec fn view(&self) -> EventView {
        EventView {
            course_name: self.course_name@,
            due_at: self.due_at,
            title: self.title@,
            html_url: self.html_url@,
            submitted: self.submitted,
        }
    }
}

/// The views of a sequence of events.
pub open spec fn event_views(s: Seq<CalendarEvent>) -> Seq<EventView> {
    s.map_values(|e: CalendarEvent| e@)
}

/// The local date and time of the instant `unix_seconds` (seconds since
/// 1970-01-01 UTC) seen at `offset` seconds east of UTC.
pub open spec fn local_of(unix_seconds: int, nanosecond: int, offset: int) -> LocalDateTime {
    LocalDateTime {
        day: ((unix_seconds + offset) / SECONDS_PER_DAY as int) as i64,
        second: ((unix_seconds + offset) % SECONDS_PER_DAY as int) as u32,
        nanosecond: nanosecond as u32,
    }
}

/// Converts an instant to local time at a fixed offset; `None` when the
/// shifted time does not fit in an `i64` of seconds.
pub fn to_local(unix_seconds: i64, nanosecond: u32, offset: i32) -> (r: Option<LocalDateTime>)
    ensures
        r is None <==> !(i64::MIN <= unix_seconds + offset <= i64::MAX),
        r matches Some(t) ==> t == local_of(unix_seconds as int, nanosecond as int, offset as int)
            && t.second < SECONDS_PER_DAY,
{
    let shifted: i64 = match unix_seconds.checked_add(offset as i64) {
        Some(v) => v,
        None => return None,
    };
    let day: i64;
    let second: i64;
    if shifted >= 0 {
        day = shifted / SECONDS_PER_DAY;
        second = shifted % SECONDS_PER_DAY;
        assert(day == shifted as int / SECONDS_PER_DAY as int);
        assert(second == shifted as int % SECONDS_PER_DAY as int);
    } else {
        let back: i64 = -(shifted + 1);
        let q: i64 = back / SECONDS_PER_DAY;
        let m: i64 = back % SECONDS_PER_DAY;
        day = -q - 1;
        second = SECONDS_PER_DAY - 1 - m;
        assert(back == q * SECONDS_PER_DAY + m && 0 <= m < SECONDS_PER_DAY);
        assert(shifted == day * SECONDS_PER_DAY + second) by (nonlinear_arith)
            requires
                back == q * SECONDS_PER_DAY + m,
                shifted == -back - 1,
                day == -q - 1,
                second == SECONDS_PER_DAY - 1 - m,
        ;
        proof {
            vstd::arithmetic::div_mod::lemma_fundamental_div_mod_converse(
                shifted as int,
                SECONDS_PER_DAY as int,
                day as int,
                second as int,
            );
        }
    }
    Some(LocalDateTime { day, second: second as u32, nanosecond })
}

/// The characters that `char::is_whitespace` accepts: those with the
/// Unicode `White_Space` property.
pub open spec fn is_space(c: char) -> bool {
    ('\u{9}' <= c <= '\u{d}') || c == ' ' || c == '\u{85}' || c == '\u{a0}' || c == '\u{1680}'
        || ('\u{2000}' <= c <= '\u{200a}') || c == '\u{2028}' || c == '\u{2029}' || c == '\u{202f}'
        || c == '\u{205f}' || c == '\u{3000}'
}

/// Relies on `char::is_whitespace`, which tests the Unicode `White_Space`
/// property.
#[verifier::external_body]
fn char_is_space(c: char) -> (r: bool)
    ensures
        r == is_space(c),
{
    c.is_whitespace()
}

/// The maximal runs of non-whitespace characters of `s`, in order.
pub open spec fn words(s: Seq<char>) -> Seq<Seq<char>>
    decreases s.len(),
{
    if s.len() == 0 {
        seq![]
    } else {
        let w = words(s.drop_last());
        let c = s.last();
        if is_space(c) {
            w
        } else if s.len() >= 2 && !is_space(s[s.len() - 2]) {
            w.update(w.len() - 1, w.last().push(c))
        } else {
            w.push(seq![c])
        }
    }
}

/// The short course code of a course label: its first two words joined by
/// a hyphen, its only word, or nothing.
pub open spec fn course_code(label: Seq<char>) -> Seq<char> {
    let w = words(label);
    if w.len() == 0 {
        seq![]
    } else if w.len() == 1 {
        w[0]
    } else {
        w[0] + seq!['-'] + w[1]
    }
}

proof fn lemma_words_nonempty(s: Seq<char>)
    requires
        s.len() > 0,
        !is_space(s.last()),
    ensures
        words(s).len() > 0,
    decreases s.len(),
{
    if s.len() >= 2 && !is_space(s[s.len() - 2]) {
        lemma_words_nonempty(s.drop_last());
    }
}

/// Derives the short course code from a free-text course label.
pub fn course_name(label: &str) -> (r: String)
    ensures
        r@ == course_code(label@),
{
    let n = label.unicode_len();
    let mut count: usize = 0;
    let mut s0: usize = 0;
    let mut e0: usize = 0;
    let mut s1: usize = 0;
    let mut e1: usize = 0;
    let mut prev_space = true;
    let mut i: usize = 0;
    while i < n
        invariant
            n == label@.len(),
            i <= n,
            count == words(label@.take(i as int)).len(),
            count <= i,
            prev_space == (i == 0 || is_space(label@[i - 1])),
            count >= 1 ==> s0 <= e0 <= i && words(label@.take(i as int))[0] == label@.subrange(s0 as int, e0 as int),
            count >= 2 ==> s1 <= e1 <= i && words(label@.take(i as int))[1] == label@.subrange(s1 as int, e1 as int),
            count == 1 && !prev_space ==> e0 == i,
            count == 2 && !prev_space ==> e1 == i,
        decreases n - i,
    {
        let c = label.get_char(i);
        let ghost before = label@.take(i as int);
        let ghost after = label@.take(i + 1);
        assert(after.drop_last() =~= before);
        assert(after.last() == c);
        let space = char_is_space(c);
        if space {
        } else if !prev_space {
            assert(after[after.len() - 2] == label@[i - 1]);
            proof { lemma_words_nonempty(before); }
            if count == 1 {
                assert(label@.subrange(s0 as int, i + 1) =~= label@.subrange(s0 as int, e0 as int).push(c));
                e0 = i + 1;
            } else if count == 2 {
                assert(label@.subrange(s1 as int, i + 1) =~= label@.subrange(s1 as int, e1 as int).push(c));
                e1 = i + 1;
            }
        } else {
            if count == 0 {
                s0 = i;
                e0 = i + 1;
                assert(label@.subrange(s0 as int, e0 as int) =~= seq![c]);
            } else if count == 1 {
                s1 = i;
                e1 = i + 1;
                assert(label@.subrange(s1 as int, e1 as int) =~= seq![c]);
            }
            count = count + 1;
        }
        prev_space = space;
        i = i + 1;
    }
    assert(label@.take(n as int) =~= label@);
    if count == 0 {
        String::new()
    } else if count == 1 {
        label.substring_char(s0, e0).to_owned()
    } else {
        let first = label.substring_char(s0, e0).to_owned();
        let joined = first.concat("-");
        proof {
            reveal_strlit("-");
        }
        let r = joined.concat(label.substring_char(s1, e1));
        assert(r@ =~= course_code(label@));
        r
    }
}

} // verus!
