use vstd::prelude::*;
use crate::event::{course_code, course_name, event_views, local_of, to_local, CalendarEvent, EventView, LocalDateTime};
use crate::json::{field_of, find_field, json_of, parse_json, text_of, Json};

verus! {

/// Why a buffer could not be read as a list of planner items.
#[derive(Clone, Copy, Debug, PartialEq, Eq, Structural)]
pub enum DecodeError {
    /// The buffer is not one JSON document.
    Syntax,
    /// The document is not a list.
    NotAList,
    /// The item at `index` lacks a field or has one of the wrong shape;
    /// every item before it is well formed.
    BadItem { index: usize },
}

/// The instant that the `time` crate reads from an ISO 8601 text, as
/// seconds since 1970-01-01 UTC and the nanosecond within that second.
pub uninterp spec fn iso8601_instant(text: Seq<char>) -> Option<(i64, u32)>;

/// Relies on time's `OffsetDateTime::parse` with the well-known ISO 8601
/// format, and on `unix_timestamp` and `nanosecond` of its result; a
/// nanosecond lies below one second.
#[verifier::external_body]
fn parse_instant(text: &str) -> (r: Option<(i64, u32)>)
    ensures
        r == iso8601_instant(text@),
        r matches Some(p) ==> p.1 < 1_000_000_000,
{
    let iso = time::format_description::well_known::Iso8601::DEFAULT;
    time::OffsetDateTime::parse(text, &iso).ok().map(|t| (t.unix_timestamp(), t.nanosecond()))
}

/// Relies on chrono's `Local::now` and `FixedOffset::local_minus_utc`: the
/// machine's present offset from UTC in seconds, which a `FixedOffset`
/// keeps strictly within one day.
#[verifier::external_body]
pub(crate) fn local_offset_seconds() -> (r: i32)
    ensures
        -86400 < r < 86400,
{
    chrono::Local::now().offset().local_minus_utc()
}

/// The submission flag of an item, given either as a bare boolean or as an
/// object with a boolean member `submitted`.
pub open spec fn submitted_of(j: Json) -> Option<bool> {
    match j {
        Json::Bool(b) => Some(b),
        Json::Object(m) => match field_of(m@, "submitted"@) {
            Some(Json::Bool(b)) => Some(b),
            _ => None,
        },
        _ => None,
    }
}

/// The local due time of an item whose date text is `text`.
pub open spec fn due_of(text: Seq<char>, offset: int) -> Option<LocalDateTime> {
    match iso8601_instant(text) {
        Some(p) => if i64::MIN <= p.0 + offset <= i64::MAX {
            Some(local_of(p.0 as int, p.1 as int, offset))
        } else {
            None
        },
        None => None,
    }
}

/// The title of an item, held in the member `title` of its `plannable`.
pub open spec fn title_of(j: Option<Json>) -> Option<Seq<char>> {
    match j {
        Some(Json::Object(p)) => text_of(field_of(p@, "title"@)),
        _ => None,
    }
}

/// The normalized event of one item of the feed, or `None` where the item
/// is not an object with all five members in their expected shapes.
pub open spec fn item_view(j: Json, offset: int) -> Option<EventView> {
    match j {
        Json::Object(m) => {
            let label = text_of(field_of(m@, "context_name"@));
            let url = text_of(field_of(m@, "html_url"@));
            let sub = match field_of(m@, "submissions"@) {
                Some(s) => submitted_of(s),
                None => None,
            };
            let title = title_of(field_of(m@, "plannable"@));
            let due = match text_of(field_of(m@, "plannable_date"@)) {
                Some(t) => due_of(t, offset),
                None => None,
            };
            if label is Some && url is Some && sub is Some && title is Some && due is Some {
                Some(EventView {
                    course_name: course_code(label.unwrap()),
                    due_at: due.unwrap(),
                    title: title.unwrap(),
                    html_url: url.unwrap(),
                    submitted: sub.unwrap(),
                })
            } else {
                None
            }
        },
        _ => None,
    }
}

/// Whether `r` is what decoding the document `j` gives: every item decoded
/// in order, or the first item that fails, or `NotAList`.
pub open spec fn decodes_to(j: Json, offset: int, r: Result<Seq<EventView>, DecodeError>) -> bool {
    match j {
        Json::Array(items) => match r {
            Ok(v) => v.len() == items@.len() && forall|i: int|
                0 <= i < v.len() ==> item_view(#[trigger] items@[i], offset) == Some(v[i]),
            Err(DecodeError::BadItem { index }) => index < items@.len() && item_view(
                items@[index as int],
                offset,
            ) is None && forall|k: int| 0 <= k < index ==> (#[trigger] item_view(items@[k], offset)) is Some,
            Err(_) => false,
        },
        _ => r == Err::<Seq<EventView>, DecodeError>(DecodeError::NotAList),
    }
}

/// The views of a decoding result.
pub open spec fn result_views(r: Result<Vec<CalendarEvent>, DecodeError>) -> Result<Seq<EventView>, DecodeError> {
    match r {
        Ok(v) => Ok(event_views(v@)),
        Err(e) => Err(e),
    }
}

/// The text of the member `name`, if it is a string.
fn text_field(members: &Vec<(String, Json)>, name: &str) -> (r: Option<String>)
    ensures
        r matches Some(s) ==> text_of(field_of(members@, name@)) == Some(s@),
        r is None ==> text_of(field_of(members@, name@)) is None,
{
    match find_field(members, name) {
        Some(i) => match &members[i].1 {
            Json::Str(s) => Some(s.clone()),
            _ => None,
        },
        None => None,
    }
}

/// Reads the submission flag from either of its two shapes.
pub fn decode_submitted(j: &Json) -> (r: Option<bool>)
    ensures
        r == submitted_of(*j),
{
    match j {
        Json::Bool(b) => Some(*b),
        Json::Object(m) => match find_field(m, "submitted") {
            Some(i) => match &m[i].1 {
                Json::Bool(b) => Some(*b),
                _ => None,
            },
            None => None,
        },
        _ => None,
    }
}

/// Decodes one planner item, converting its due time to local time at
/// `offset` seconds east of UTC.
pub fn decode_item(j: &Json, offset: i32) -> (r: Option<CalendarEvent>)
    ensures
        r matches Some(e) ==> item_view(*j, offset as int) == Some(e@),
        r is None ==> item_view(*j, offset as int) is None,
{
    let m = match j {
        Json::Object(m) => m,
        _ => return None,
    };
    let label = match text_field(m, "context_name") {
        Some(s) => s,
        None => return None,
    };
    let url = match text_field(m, "html_url") {
        Some(s) => s,
        None => return None,
    };
    let submitted = match find_field(m, "submissions") {
        Some(i) => match decode_submitted(&m[i].1) {
            Some(b) => b,
            None => return None,
        },
        None => return None,
    };
    let title = match find_field(m, "plannable") {
        Some(i) => match &m[i].1 {
            Json::Object(p) => match text_field(p, "title") {
                Some(s) => s,
                None => return None,
            },
            _ => return None,
        },
        None => return None,
    };
    let date_text = match text_field(m, "plannable_date") {
        Some(s) => s,
        None => return None,
    };
    let due_at = match parse_instant(date_text.as_str()) {
        Some(p) => match to_local(p.0, p.1, offset) {
            Some(t) => t,
            None => return None,
        },
        None => return None,
    };
    let course = course_name(label.as_str());
    Some(CalendarEvent { course_name: course, due_at, title, html_url: url, submitted })
}

/// Decodes a JSON document that should be a list of planner items.
pub fn decode_items(j: &Json, offset: i32) -> (r: Result<Vec<CalendarEvent>, DecodeError>)
    ensures
        decodes_to(*j, offset as int, result_views(r)),
{
    let items = match j {
        Json::Array(items) => {
            assert(*j == Json::Array(*items));
            items
        },
        _ => return Err(DecodeError::NotAList),
    };
    let mut out: Vec<CalendarEvent> = Vec::new();
    let mut i: usize = 0;
    while i < items.len()
        invariant
            *j == Json::Array(*items),
            i <= items@.len(),
            out@.len() == i,
            forall|k: int| 0 <= k < i ==> item_view(#[trigger] items@[k], offset as int) == Some(out@[k]@),
        decreases items@.len() - i,
    {
        match decode_item(&items[i], offset) {
            Some(e) => out.push(e),
            None => {
                assert(item_view(items@[i as int], offset as int) is None);
                assert forall|k: int| 0 <= k < i implies (#[trigger] item_view(items@[k], offset as int)) is Some by {}
                let r: Result<Vec<CalendarEvent>, DecodeError> = Err(DecodeError::BadItem { index: i });
                assert(decodes_to(*j, offset as int, result_views(r)));
                return r;
            },
        }
        i = i + 1;
    }
    assert(decodes_to(*j, offset as int, Ok(event_views(out@))));
    Ok(out)
}

/// Decodes a raw feed body: parses it as JSON, then reads its items.
pub fn decode_events(bytes: &[u8], offset: i32) -> (r: Result<Vec<CalendarEvent>, DecodeError>)
    ensures
        match json_of(bytes@) {
            None => r == Err::<Vec<CalendarEvent>, DecodeError>(DecodeError::Syntax),
            Some(j) => decodes_to(j, offset as int, result_views(r)),
        },
{
    match parse_json(bytes) {
        None => Err(DecodeError::Syntax),
        Some(j) => decode_items(&j, offset),
    }
}

/// Both shapes of the submission flag give the same value: a bare boolean
/// `b`, and an object whose member `submitted` is `b`.
pub proof fn lemma_submission_shapes_agree(b: bool, members: Vec<(String, Json)>)
    requires
        field_of(members@, "submitted"@) == Some(Json::Bool(b)),
    ensures
        submitted_of(Json::Bool(b)) == Some(b),
        submitted_of(Json::Object(members)) == Some(b),
{
}

/// Two items that agree on every member but `submissions`, where one gives
/// the flag as a bare boolean `b` and the other as an object whose member
/// `submitted` is `b`, decode to the same event.
pub proof fn lemma_items_with_either_shape_agree(
    bare: Vec<(String, Json)>,
    wrapped: Vec<(String, Json)>,
    inner: Vec<(String, Json)>,
    b: bool,
    offset: int,
)
    requires
        field_of(bare@, "submissions"@) == Some(Json::Bool(b)),
        field_of(wrapped@, "submissions"@) == Some(Json::Object(inner)),
        field_of(inner@, "submitted"@) == Some(Json::Bool(b)),
        field_of(bare@, "context_name"@) == field_of(wrapped@, "context_name"@),
        field_of(bare@, "html_url"@) == field_of(wrapped@, "html_url"@),
        field_of(bare@, "plannable"@) == field_of(wrapped@, "plannable"@),
        field_of(bare@, "plannable_date"@) == field_of(wrapped@, "plannable_date"@),
    ensures
        item_view(Json::Object(bare), offset) == item_view(Json::Object(wrapped), offset),
        item_view(Json::Object(bare), offset) matches Some(e) ==> e.submitted == b,
{
}

} // verus!
