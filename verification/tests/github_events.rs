use chrono::{Datelike, TimeZone};
use daily_activity::datetime::CalendarDate;
use daily_activity::github::{
    bearer_authorization, describe_event, display_events, event_local_date, events_url, get, missing_field,
    retain_events_on, retain_todays_events, Actor, Event, EventRepo,
};
use daily_activity::json::{member_of, missing_key, JsonValue};

fn s(v: &str) -> JsonValue {
    JsonValue::String(v.to_string())
}

fn obj(members: Vec<(&str, JsonValue)>) -> JsonValue {
    JsonValue::Object(members.into_iter().map(|(k, v)| (k.to_string(), v)).collect())
}

fn event(kind: &str, payload: JsonValue, created_at: &str) -> Event {
    Event {
        id: "1".to_string(),
        event_type: kind.to_string(),
        actor: Actor { login: "octocat".to_string() },
        repo: EventRepo { name: "octocat/hello".to_string() },
        payload,
        created_at: created_at.to_string(),
    }
}

fn local_day_of(secs: i64) -> CalendarDate {
    let d = chrono::Local.timestamp_opt(secs, 0).unwrap().date_naive();
    CalendarDate { year: d.year(), month: d.month(), day: d.day() }
}

#[test]
fn get_follows_keys_and_falls_back_for_non_strings() {
    let ev = event(
        "PullRequestEvent",
        obj(vec![("pull_request", obj(vec![("title", s("Fix")), ("number", JsonValue::Number("42".to_string()))]))]),
        "",
    );
    assert_eq!(get(&ev, &["pull_request", "title"]), "Fix");
    assert_eq!(get(&ev, &["pull_request", "number"]), "!BAD-URL!");
    assert_eq!(missing_key(&ev.payload, &["pull_request", "html_url"]), Some("html_url".to_string()));
    assert_eq!(missing_key(&ev.payload, &["nothing", "title"]), Some("nothing".to_string()));
    assert_eq!(missing_key(&ev.payload, &["pull_request"]), None);
    assert!(member_of(&s("x"), "x").is_none());
}

#[test]
fn describe_each_kind_of_event() {
    let cc = event(
        "CommitCommentEvent",
        obj(vec![("comment", obj(vec![("body", s("Nice")), ("html_url", s("https://c"))]))]),
        "",
    );
    assert_eq!(describe_event(&cc), "- Commented on a commit:\n  \"Nice\"\n  Link: https://c");
    let create = event("CreateEvent", obj(vec![("ref_type", s("branch")), ("full_ref", s("refs/heads/x"))]), "");
    assert_eq!(describe_event(&create), "- Created branch: refs/heads/x");
    let delete = event("DeleteEvent", obj(vec![("ref_type", s("tag")), ("full_ref", s("v1"))]), "");
    assert_eq!(describe_event(&delete), "- Deleted tag: v1");
    let disc = event("DiscussionEvent", obj(vec![("discussion", obj(vec![("url", s("https://d"))]))]), "");
    assert_eq!(describe_event(&disc), "- Discussion created: https://d");
    let pr = event(
        "PullRequestEvent",
        obj(vec![
            ("action", s("opened")),
            (
                "pull_request",
                obj(vec![
                    ("title", s("Add x")),
                    ("number", JsonValue::Number("7".to_string())),
                    ("html_url", s("https://p")),
                ]),
            ),
        ]),
        "",
    );
    assert_eq!(describe_event(&pr), "- Opened a pull request:\n  Title: Add x#!BAD-URL!\n  Link: https://p");
    let push = event("PushEvent", obj(vec![("head", s("abc123")), ("ref", s("refs/heads/main"))]), "");
    assert_eq!(describe_event(&push), "- Pushed a commit abc123\nrefs/heads/main");
    let other = event("WatchEvent", JsonValue::Null, "");
    assert_eq!(describe_event(&other), "And some other stuff");
    let lines = display_events(&vec![create, other]);
    assert_eq!(lines, vec!["- Created branch: refs/heads/x", "And some other stuff"]);
}

#[test]
fn missing_field_names_the_first_absent_key() {
    let pr = event("PullRequestEvent", obj(vec![("action", s("closed"))]), "");
    assert_eq!(missing_field(&pr), Some("pull_request".to_string()));
    let push = event("PushEvent", obj(vec![("head", s("h"))]), "");
    assert_eq!(missing_field(&push), Some("ref".to_string()));
    let other = event("ForkEvent", JsonValue::Null, "");
    assert_eq!(missing_field(&other), None);
    let cc = event("CommitCommentEvent", obj(vec![("comment", s("flat"))]), "");
    assert_eq!(missing_field(&cc), Some("body".to_string()));
}

#[test]
fn github_addresses() {
    assert_eq!(events_url("octocat"), "https://api.github.com/users/octocat/events");
    assert_eq!(bearer_authorization("t0k"), "Bearer t0k");
}

#[test]
fn event_dates_follow_the_local_time_zone() {
    let ev = event("X", JsonValue::Null, "2024-01-15T12:00:00Z");
    let secs = chrono::DateTime::parse_from_rfc3339("2024-01-15T12:00:00Z").unwrap().timestamp();
    assert_eq!(event_local_date(&ev), Some(local_day_of(secs)));
    let bad = event("X", JsonValue::Null, "yesterday");
    assert_eq!(event_local_date(&bad), None);
}

#[test]
fn retain_keeps_todays_events_and_reports_unreadable_times() {
    let secs = chrono::DateTime::parse_from_rfc3339("2024-01-15T12:00:00+00:00").unwrap().timestamp();
    let today = local_day_of(secs);
    let mut events = vec![
        event("A", JsonValue::Null, "2024-01-15T12:00:00+00:00"),
        event("B", JsonValue::Null, "not a time"),
        event("C", JsonValue::Null, "2020-06-01T00:00:00Z"),
        event("D", JsonValue::Null, "2024-01-15T12:00:00Z"),
    ];
    let unreadable = retain_todays_events(&mut events, today);
    let kinds: Vec<&str> = events.iter().map(|e| e.event_type.as_str()).collect();
    assert_eq!(kinds, vec!["A", "D"]);
    assert_eq!(unreadable, vec!["not a time"]);
}

#[test]
fn retain_events_on_uses_the_given_days() {
    let day = CalendarDate { year: 2024, month: 2, day: 29 };
    let other = CalendarDate { year: 2024, month: 3, day: 1 };
    let mut events = vec![event("A", JsonValue::Null, ""), event("B", JsonValue::Null, ""), event("C", JsonValue::Null, "")];
    retain_events_on(&mut events, &vec![Some(day), None, Some(other)], day);
    assert_eq!(events.len(), 1);
    assert_eq!(events[0].event_type, "A");
}

#[test]
fn event_days_stay_within_a_day_of_utc() {
    for (text, y, m, d) in [("2024-01-15T00:00:00Z", 2024, 1, 15), ("0000-01-01T00:00:00+23:59", -1, 12, 31), ("9999-12-31T23:59:59-23:59", 10000, 1, 1)] {
        let ev = event("X", JsonValue::Null, text);
        let day = event_local_date(&ev).unwrap();
        let local = chrono::NaiveDate::from_ymd_opt(day.year, day.month, day.day).unwrap();
        let utc = chrono::NaiveDate::from_ymd_opt(y, m, d).unwrap();
        assert!((local - utc).num_days().abs() <= 1);
    }
}

#[test]
fn retain_drops_events_of_other_days() {
    let mut events = vec![
        event("A", JsonValue::Null, "2024-01-15T12:00:00Z"),
        event("B", JsonValue::Null, "2024-01-20T12:00:00Z"),
    ];
    let far = CalendarDate { year: 2024, month: 1, day: 30 };
    let unreadable = retain_todays_events(&mut events, far);
    assert!(events.is_empty());
    assert!(unreadable.is_empty());
}
