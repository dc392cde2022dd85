use vstd::prelude::*;
use crate::calendar::{build_calendar, flatten, stable_sort_of, Calendar};
use crate::decode::{decode_events, decodes_to, local_offset_seconds, DecodeError};
use crate::event::{event_views, CalendarEvent};
use crate::json::json_of;
use crate::reducer::Action;

verus! {

/// Whether `r` is the calendar of the feed body `bytes` read with due
/// times at `offset` seconds east of UTC: the events that decoding yields,
/// grouped by day with every cursor at 0, or the error that decoding meets.
pub open spec fn feed_calendar(bytes: Seq<u8>, offset: int, r: Result<Calendar, DecodeError>) -> bool {
    match json_of(bytes) {
        None => r == Err::<Calendar, DecodeError>(DecodeError::Syntax),
        Some(j) => match r {
            Ok(c) => {
                &&& c.wf()
                &&& c.current_date_index == 0
                &&& forall|i: int| 0 <= i < c.dates@.len() ==> (#[trigger] c.dates@[i]).selected == 0
                &&& exists|evs: Seq<CalendarEvent>|
                    decodes_to(j, offset, Ok(event_views(evs))) && #[trigger] stable_sort_of(flatten(c.dates@), evs)
            },
            Err(e) => decodes_to(j, offset, Err(e)),
        },
    }
}

/// Whether `r` is what a cache read of `bytes` yields at `offset`.
pub open spec fn cache_outcome(bytes: Seq<u8>, offset: int, r: Option<Action>) -> bool {
    match r {
        None => exists|e: DecodeError| #[trigger] feed_calendar(bytes, offset, Err(e)),
        Some(Action::CacheReady(c)) => feed_calendar(bytes, offset, Ok(c)),
        Some(_) => false,
    }
}

/// Whether `r` is what a fetched body `bytes` yields at `offset`.
pub open spec fn network_outcome(bytes: Seq<u8>, offset: int, r: Result<Action, DecodeError>) -> bool {
    match r {
        Err(e) => feed_calendar(bytes, offset, Err(e)),
        Ok(Action::NetworkReady(c)) => feed_calendar(bytes, offset, Ok(c)),
        Ok(_) => false,
    }
}

/// Decodes a feed body and builds its calendar, with due times at
/// `offset` seconds east of UTC.
pub fn load_calendar(bytes: &[u8], offset: i32) -> (r: Result<Calendar, DecodeError>)
    ensures
        feed_calendar(bytes@, offset as int, r),
{
    match decode_events(bytes, offset) {
        Ok(events) => {
            let ghost evs = events@;
            let c = build_calendar(events);
            assert(stable_sort_of(flatten(c.dates@), evs));
            Ok(c)
        },
        Err(e) => Err(e),
    }
}

/// Decodes a feed body and builds its calendar in the machine's local time.
pub fn calendar_from_bytes(bytes: &[u8]) -> (r: Result<Calendar, DecodeError>)
    ensures
        exists|o: int| -86400 < o < 86400 && #[trigger] feed_calendar(bytes@, o, r),
{
    let offset = local_offset_seconds();
    let r = load_calendar(bytes, offset);
    assert(feed_calendar(bytes@, offset as int, r));
    r
}

/// The action that a cache read yields: the cached calendar when the blob
/// is there and decodes, and nothing otherwise.
pub fn cache_action(blob: Option<Vec<u8>>) -> (r: Option<Action>)
    ensures
        blob is None ==> r is None,
        blob matches Some(b) ==> json_of(b@) is None ==> r is None,
        r matches Some(a) ==> a is CacheReady && a.wf(),
        blob matches Some(b) ==> exists|o: int| -86400 < o < 86400 && #[trigger] cache_outcome(b@, o, r),
{
    match blob {
        None => None,
        Some(b) => {
            let offset = local_offset_seconds();
            match load_calendar(b.as_slice(), offset) {
                Ok(c) => {
                    let r = Some(Action::CacheReady(c));
                    assert(cache_outcome(b@, offset as int, r));
                    r
                },
                Err(e) => {
                    assert(feed_calendar(b@, offset as int, Err(e)));
                    assert(cache_outcome(b@, offset as int, None));
                    None
                },
            }
        },
    }
}

/// The action that a fetched feed body yields: its calendar, or the error
/// that decoding it meets.
pub fn network_action(body: &[u8]) -> (r: Result<Action, DecodeError>)
    ensures
        r matches Ok(a) ==> a is NetworkReady && a.wf(),
        exists|o: int| -86400 < o < 86400 && #[trigger] network_outcome(body@, o, r),
{
    let offset = local_offset_seconds();
    match load_calendar(body, offset) {
        Ok(c) => {
            let r = Ok(Action::NetworkReady(c));
            assert(network_outcome(body@, offset as int, r));
            r
        },
        Err(e) => {
            assert(network_outcome(body@, offset as int, Err(e)));
            Err(e)
        },
    }
}

} // verus!
