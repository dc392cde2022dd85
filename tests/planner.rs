use canvas_tui::calendar::{build_calendar, Calendar};
use canvas_tui::decode::{decode_events, decode_items, decode_submitted, DecodeError};
use canvas_tui::event::{course_name, to_local, CalendarEvent, LocalDateTime};
use canvas_tui::json::Json;
use canvas_tui::loader::{cache_action, load_calendar, network_action};
use canvas_tui::reducer::{drain, get_action, update, Action, App, Effect, Event};

fn item(course: &str, title: &str, date: &str, submissions: &str) -> String {
    format!(
        "{{\"context_name\":\"{}\",\"html_url\":\"https://x/{}\",\"submissions\":{},\"plannable\":{{\"title\":\"{}\"}},\"plannable_date\":\"{}\"}}",
        course, title, submissions, title, date
    )
}

fn feed(items: &[String]) -> Vec<u8> {
    format!("[{}]", items.join(",")).into_bytes()
}

fn ev(title: &str, day: i64, second: u32) -> CalendarEvent {
    CalendarEvent {
        course_name: "C".to_string(),
        due_at: LocalDateTime { day, second, nanosecond: 0 },
        title: title.to_string(),
        html_url: format!("https://x/{}", title),
        submitted: false,
    }
}

fn titles(cal: &Calendar) -> Vec<Vec<String>> {
    cal.dates.iter().map(|d| d.events.iter().map(|e| e.title.clone()).collect()).collect()
}

fn two_day_feed() -> Vec<u8> {
    feed(&[
        item("Intro to Systems", "b2", "2024-01-02T15:00:00Z", "false"),
        item("Intro to Systems", "a1", "2024-01-01T09:00:00Z", "true"),
        item("Math 101", "b1", "2024-01-02T08:30:00Z", "{\"submitted\":true}"),
        item("Math 101", "a2", "2024-01-01T20:00:00Z", "{\"submitted\":false}"),
    ])
}

#[test]
fn course_name_examples() {
    assert_eq!(course_name("Intro to Systems"), "Intro-to");
    assert_eq!(course_name("Systems"), "Systems");
    assert_eq!(course_name(""), "");
    assert_eq!(course_name("  CS   101  Fall "), "CS-101");
    assert_eq!(course_name("   "), "");
    assert_eq!(course_name("a\tb\nc"), "a-b");
}

#[test]
fn to_local_converts_with_offset() {
    assert_eq!(to_local(0, 5, 0), Some(LocalDateTime { day: 0, second: 0, nanosecond: 5 }));
    assert_eq!(to_local(-1, 0, 0), Some(LocalDateTime { day: -1, second: 86399, nanosecond: 0 }));
    assert_eq!(to_local(1704067200, 0, -3600), Some(LocalDateTime { day: 19722, second: 82800, nanosecond: 0 }));
    assert_eq!(to_local(i64::MAX, 0, 1), None);
}

#[test]
fn submission_shapes_decode_alike() {
    for b in [true, false] {
        let bare = feed(&[item("A", "t", "2024-01-01T00:00:00Z", &b.to_string())]);
        let obj = feed(&[item("A", "t", "2024-01-01T00:00:00Z", &format!("{{\"submitted\":{}}}", b))]);
        let x = decode_events(&bare, 0).unwrap();
        let y = decode_events(&obj, 0).unwrap();
        assert_eq!(x[0].submitted, b);
        assert_eq!(y[0].submitted, b);
    }
    assert_eq!(decode_submitted(&Json::Bool(true)), Some(true));
    assert_eq!(decode_submitted(&Json::Null), None);
}

#[test]
fn decode_reads_every_field() {
    let bytes = feed(&[item("Intro to Systems", "hw1", "2024-01-01T10:30:00+02:00", "true")]);
    let events = decode_events(&bytes, 3600).unwrap();
    assert_eq!(events.len(), 1);
    let e = &events[0];
    assert_eq!(e.course_name, "Intro-to");
    assert_eq!(e.title, "hw1");
    assert_eq!(e.html_url, "https://x/hw1");
    assert!(e.submitted);
    // 08:30 UTC seen one hour east of UTC.
    assert_eq!(e.due_at, LocalDateTime { day: 19723, second: 9 * 3600 + 1800, nanosecond: 0 });
    assert_eq!(e.due_at.hour(), 9);
    assert_eq!(e.due_at.minute(), 30);
}

#[test]
fn decode_errors() {
    assert_eq!(decode_events(b"not json", 0).unwrap_err(), DecodeError::Syntax);
    assert_eq!(decode_events(b"{\"a\":1}", 0).unwrap_err(), DecodeError::NotAList);
    let bad = feed(&[
        item("A", "t", "2024-01-01T00:00:00Z", "true"),
        item("A", "t", "2024-01-01T00:00:00Z", "\"yes\""),
        "{}".to_string(),
    ]);
    assert_eq!(decode_events(&bad, 0).unwrap_err(), DecodeError::BadItem { index: 1 });
    let bad_date = feed(&[item("A", "t", "yesterday", "true")]);
    assert_eq!(decode_events(&bad_date, 0).unwrap_err(), DecodeError::BadItem { index: 0 });
    assert_eq!(decode_events(b"[]", 0).unwrap().len(), 0);
}

#[test]
fn decode_items_on_a_built_tree() {
    let j = Json::Array(vec![Json::Bool(true)]);
    assert_eq!(decode_items(&j, 0).unwrap_err(), DecodeError::BadItem { index: 0 });
    assert_eq!(decode_items(&Json::Null, 0).unwrap_err(), DecodeError::NotAList);
    assert!(decode_items(&Json::Array(vec![]), 0).unwrap().is_empty());
    assert_eq!(decode_events(b"[", 0).unwrap_err(), DecodeError::Syntax);
}

#[test]
fn build_orders_days_and_events_stably() {
    let events = vec![
        ev("late", 5, 500),
        ev("tie1", 3, 100),
        ev("early", 3, 50),
        ev("tie2", 3, 100),
        ev("other", 4, 0),
    ];
    let cal = build_calendar(events);
    assert_eq!(cal.current_date_index, 0);
    assert_eq!(
        titles(&cal),
        vec![vec!["early", "tie1", "tie2"], vec!["other"], vec!["late"]]
    );
    assert_eq!(cal.dates.iter().map(|d| d.date).collect::<Vec<_>>(), vec![3, 4, 5]);
    assert!(cal.dates.iter().all(|d| d.selected == 0));
    assert!(build_calendar(vec![]).dates.is_empty());
}

#[test]
fn network_beats_cache_in_either_order() {
    let net = || build_calendar(vec![ev("net", 1, 0)]);
    let cache = || build_calendar(vec![ev("cache", 1, 0), ev("cache2", 2, 0)]);

    let mut app = App::new();
    update(&mut app, Action::NetworkReady(net()));
    update(&mut app, Action::CacheReady(cache()));
    assert_eq!(titles(&app.calendar), vec![vec!["net"]]);
    assert!(app.have_received_network);

    let mut app = App::new();
    update(&mut app, Action::CacheReady(cache()));
    assert_eq!(titles(&app.calendar), vec![vec!["cache"], vec!["cache2"]]);
    update(&mut app, Action::NextDay);
    assert_eq!(app.calendar.current_date_index, 1);
    update(&mut app, Action::NetworkReady(net()));
    assert_eq!(titles(&app.calendar), vec![vec!["net"]]);
    assert_eq!(app.calendar.current_date_index, 0);
}

#[test]
fn cache_keeps_day_cursor_within_new_days() {
    let mut app = App::new();
    update(&mut app, Action::CacheReady(build_calendar(vec![ev("a", 1, 0), ev("b", 2, 0), ev("c", 3, 0)])));
    update(&mut app, Action::NextDay);
    update(&mut app, Action::NextDay);
    assert_eq!(app.calendar.current_date_index, 2);
    update(&mut app, Action::CacheReady(build_calendar(vec![ev("x", 1, 0)])));
    assert_eq!(app.calendar.current_date_index, 0);
}

#[test]
fn navigation_saturates_and_ignores_empty() {
    let mut app = App::new();
    for a in [Action::NextDay, Action::PrevDay, Action::NextItem, Action::PrevItem] {
        update(&mut app, a);
        assert_eq!(app.calendar.current_date_index, 0);
        assert!(app.calendar.dates.is_empty());
    }
    assert!(matches!(update(&mut app, Action::OpenSelected), Effect::Nothing));

    update(&mut app, Action::NetworkReady(build_calendar(vec![ev("a", 1, 0), ev("b", 1, 5), ev("c", 2, 0)])));
    update(&mut app, Action::PrevDay);
    assert_eq!(app.calendar.current_date_index, 0);
    update(&mut app, Action::PrevItem);
    assert_eq!(app.calendar.dates[0].selected, 0);
    for _ in 0..3 {
        update(&mut app, Action::NextItem);
    }
    assert_eq!(app.calendar.dates[0].selected, 1);
    for _ in 0..3 {
        update(&mut app, Action::NextDay);
    }
    assert_eq!(app.calendar.current_date_index, 1);
    update(&mut app, Action::NextItem);
    assert_eq!(app.calendar.dates[1].selected, 0);
}

#[test]
fn end_to_end_two_days_four_events() {
    let cal = load_calendar(&two_day_feed(), 0).unwrap();
    assert_eq!(titles(&cal), vec![vec!["a1", "a2"], vec!["b1", "b2"]]);
    let mut app = App::new();
    update(&mut app, Action::NetworkReady(cal));
    assert_eq!(app.calendar.current_date_index, 0);
    assert_eq!(app.calendar.dates[0].selected, 0);
    update(&mut app, Action::NextDay);
    update(&mut app, Action::NextItem);
    let day = &app.calendar.dates[app.calendar.current_date_index];
    assert_eq!(app.calendar.current_date_index, 1);
    assert_eq!(day.events[day.selected].title, "b2");
    assert_eq!(day.events[day.selected].course_name, "Intro-to");
    match update(&mut app, Action::OpenSelected) {
        Effect::Open(u) => assert_eq!(u, "https://x/b2"),
        _ => panic!("expected an address"),
    }
}

#[test]
fn corrupted_cache_yields_no_action() {
    assert!(cache_action(Some(b"\x00\xffnot json".to_vec())).is_none());
    assert!(cache_action(Some(b"[{\"context_name\": 3}]".to_vec())).is_none());
    assert!(cache_action(None).is_none());
    assert!(matches!(cache_action(Some(two_day_feed())), Some(Action::CacheReady(_))));
}

#[test]
fn network_action_reports_errors() {
    assert_eq!(network_action(b"{").unwrap_err(), DecodeError::Syntax);
    match network_action(&two_day_feed()) {
        Ok(Action::NetworkReady(c)) => assert_eq!(c.dates.iter().map(|d| d.events.len()).sum::<usize>(), 4),
        _ => panic!("expected a calendar"),
    }
}

#[test]
fn keys_map_to_actions() {
    assert!(matches!(get_action(Event::Key('q')), Action::Quit));
    assert!(matches!(get_action(Event::Key('j')), Action::NextItem));
    assert!(matches!(get_action(Event::Key('k')), Action::PrevItem));
    assert!(matches!(get_action(Event::Key('l')), Action::NextDay));
    assert!(matches!(get_action(Event::Key('h')), Action::PrevDay));
    assert!(matches!(get_action(Event::Key('o')), Action::OpenSelected));
    assert!(matches!(get_action(Event::Key('x')), Action::Noop));
    assert!(matches!(get_action(Event::OtherKey), Action::Noop));
    assert!(matches!(get_action(Event::Error), Action::Noop));
    assert!(matches!(get_action(Event::Tick), Action::Tick));
    assert!(matches!(get_action(Event::Render), Action::Render));
}

#[test]
fn longest_item_lens_after_load() {
    let mut app = App::new();
    let mut e = ev("a long title", 1, 0);
    e.course_name = "Intro-to".to_string();
    update(&mut app, Action::NetworkReady(build_calendar(vec![e, ev("x", 2, 0)])));
    assert_eq!(app.longest_item_lens, (8, 12, 7));
    app.calendar = build_calendar(vec![]);
    app.calculate_longest_item_lens();
    assert_eq!(app.longest_item_lens, (0, 0, 0));
}

#[test]
fn drain_applies_backlog_in_order() {
    let mut app = App::new();
    let (repaint, urls) = drain(
        &mut app,
        vec![
            Action::Tick,
            Action::NetworkReady(build_calendar(vec![ev("a", 1, 0), ev("b", 2, 0)])),
            Action::OpenSelected,
            Action::Render,
            Action::NextDay,
            Action::OpenSelected,
            Action::Quit,
        ],
    );
    assert!(repaint);
    assert_eq!(urls, vec!["https://x/a".to_string(), "https://x/b".to_string()]);
    assert!(app.should_quit);
    let (repaint, urls) = drain(&mut app, vec![Action::Tick]);
    assert!(!repaint);
    assert!(urls.is_empty());
}
