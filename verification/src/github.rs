//! The GitHub part of the daily report: the events of a user, the ones of
//! today, and a line of text for each.
use vstd::prelude::*;
use crate::datetime::{CalendarDate, chrono_local_day, local_date, parse_rfc3339, rfc3339_instant, within_a_day_of_utc};
use crate::json::{JsonValue, at_path, key_path, missing_along, missing_key, value_at, lemma_missing_along};
use crate::str_ext::{StrExt, capitalized};
use crate::text::text_eq;

verus! {

/// The user who caused an event.
pub struct Actor {
    pub login: String,
}

/// The repository of an event.
pub struct EventRepo {
    pub name: String,
}

/// An event of the GitHub events API.
pub struct Event {
    pub id: String,
    pub event_type: String,
    pub actor: Actor,
    pub repo: EventRepo,
    pub payload: JsonValue,
    pub created_at: String,
}

/// The text shown for a payload value: a JSON string as it is, anything
/// else as `!BAD-URL!`.
pub open spec fn text_or_fallback(v: JsonValue) -> Seq<char> {
    match v {
        JsonValue::String(s) => s@,
        _ => "!BAD-URL!"@,
    }
}

/// The text shown for the payload value at a path.
pub open spec fn payload_field(ev: Event, path: Seq<Seq<char>>) -> Seq<char> {
    text_or_fallback(at_path(ev.payload, path).unwrap())
}

/// The text of the payload value at a path of keys; the path must exist in
/// the payload.
pub fn get(event: &Event, keys: &[&str]) -> (r: String)
    requires
        at_path(event.payload, key_path(keys@)) is Some,
    ensures
        r@ == payload_field(*event, key_path(keys@)),
{
    let v = value_at(&event.payload, keys);
    match v {
        JsonValue::String(s) => s.clone(),
        _ => String::from_str("!BAD-URL!"),
    }
}

/// The payload value at a one-key path.
fn field1(event: &Event, a: &str) -> (r: String)
    requires
        at_path(event.payload, seq![a@]) is Some,
    ensures
        r@ == payload_field(*event, seq![a@]),
{
    let keys: [&str; 1] = [a];
    assert(key_path(keys@) =~= seq![a@]);
    get(event, &keys)
}

/// The payload value at a two-key path.
fn field2(event: &Event, a: &str, b: &str) -> (r: String)
    requires
        at_path(event.payload, seq![a@, b@]) is Some,
    ensures
        r@ == payload_field(*event, seq![a@, b@]),
{
    let keys: [&str; 2] = [a, b];
    assert(key_path(keys@) =~= seq![a@, b@]);
    get(event, &keys)
}

/// The payload paths that the line of an event of type `t` reads, in the
/// order they are read.
pub open spec fn event_field_paths(t: Seq<char>) -> Seq<Seq<Seq<char>>> {
    if t == "CommitCommentEvent"@ {
        seq![seq!["comment"@, "body"@], seq!["comment"@, "html_url"@]]
    } else if t == "CreateEvent"@ {
        seq![seq!["ref_type"@], seq!["full_ref"@]]
    } else if t == "DeleteEvent"@ {
        seq![seq!["ref_type"@], seq!["full_ref"@]]
    } else if t == "DiscussionEvent"@ {
        seq![seq!["discussion"@, "url"@]]
    } else if t == "PullRequestEvent"@ {
        seq![
            seq!["action"@],
            seq!["pull_request"@, "title"@],
            seq!["pull_request"@, "number"@],
            seq!["pull_request"@, "html_url"@],
        ]
    } else if t == "PushEvent"@ {
        seq![seq!["head"@], seq!["ref"@]]
    } else {
        seq![]
    }
}

/// Whether the payload of an event holds every path its line reads.
pub open spec fn event_fields_present(ev: Event) -> bool {
    forall|i: int|
        0 <= i < event_field_paths(ev.event_type@).len() ==> (#[trigger] at_path(
            ev.payload,
            event_field_paths(ev.event_type@)[i],
        )) is Some
}

/// The first key missing along the first path that cannot be followed.
pub open spec fn first_missing(v: JsonValue, paths: Seq<Seq<Seq<char>>>) -> Option<Seq<char>>
    decreases paths.len(),
{
    if paths.len() == 0 {
        None
    } else {
        match missing_along(v, paths[0]) {
            Some(k) => Some(k),
            None => first_missing(v, paths.drop_first()),
        }
    }
}

/// No key is missing exactly when every path can be followed.
pub proof fn lemma_first_missing(v: JsonValue, paths: Seq<Seq<Seq<char>>>)
    ensures
        (first_missing(v, paths) is None) == (forall|i: int|
            0 <= i < paths.len() ==> (#[trigger] at_path(v, paths[i])) is Some),
    decreases paths.len(),
{
    if paths.len() > 0 {
        lemma_missing_along(v, paths[0]);
        lemma_first_missing(v, paths.drop_first());
        if first_missing(v, paths) is None {
            assert forall|i: int| 0 <= i < paths.len() implies (#[trigger] at_path(v, paths[i])) is Some by {
                if i > 0 {
                    assert(paths[i] == paths.drop_first()[i - 1]);
                }
            }
        } else if missing_along(v, paths[0]) is None {
            let j = choose|j: int| 0 <= j < paths.drop_first().len() && !(at_path(v, paths.drop_first()[j]) is Some);
            assert(paths.drop_first()[j] == paths[j + 1]);
        }
    }
}

/// The line shown for an event.
pub open spec fn event_message(ev: Event) -> Seq<char> {
    let t = ev.event_type@;
    let p = event_field_paths(t);
    if t == "CommitCommentEvent"@ {
        "- Commented on a commit:\n  \""@ + payload_field(ev, p[0]) + "\"\n  Link: "@ + payload_field(ev, p[1])
    } else if t == "CreateEvent"@ {
        "- Created "@ + payload_field(ev, p[0]) + ": "@ + payload_field(ev, p[1])
    } else if t == "DeleteEvent"@ {
        "- Deleted "@ + payload_field(ev, p[0]) + ": "@ + payload_field(ev, p[1])
    } else if t == "DiscussionEvent"@ {
        "- Discussion created: "@ + payload_field(ev, p[0])
    } else if t == "PullRequestEvent"@ {
        "- "@ + capitalized(payload_field(ev, p[0])) + " a pull request:\n  Title: "@
            + payload_field(ev, p[1]) + "#"@ + payload_field(ev, p[2]) + "\n  Link: "@
            + payload_field(ev, p[3])
    } else if t == "PushEvent"@ {
        "- Pushed a commit "@ + payload_field(ev, p[0]) + "\n"@ + payload_field(ev, p[1])
    } else {
        "And some other stuff"@
    }
}

/// The event types that get a line of their own.
pub open spec fn reported_event_types() -> Seq<Seq<char>> {
    seq![
        "CommitCommentEvent"@,
        "CreateEvent"@,
        "DeleteEvent"@,
        "DiscussionEvent"@,
        "PullRequestEvent"@,
        "PushEvent"@,
    ]
}

/// An event of any type but the six reported ones reads nothing from its
/// payload and is shown as "And some other stuff", however close its type
/// is to a reported one.
pub proof fn lemma_other_event_types(ev: Event)
    requires
        !reported_event_types().contains(ev.event_type@),
    ensures
        event_field_paths(ev.event_type@).len() == 0,
        event_fields_present(ev),
        event_message(ev) == "And some other stuff"@,
{
    let t = ev.event_type@;
    assert(reported_event_types()[0] == "CommitCommentEvent"@);
    assert(reported_event_types()[1] == "CreateEvent"@);
    assert(reported_event_types()[2] == "DeleteEvent"@);
    assert(reported_event_types()[3] == "DiscussionEvent"@);
    assert(reported_event_types()[4] == "PullRequestEvent"@);
    assert(reported_event_types()[5] == "PushEvent"@);
    assert(t != "CommitCommentEvent"@ && t != "CreateEvent"@ && t != "DeleteEvent"@);
    assert(t != "DiscussionEvent"@ && t != "PullRequestEvent"@ && t != "PushEvent"@);
}

/// The key paths of a list of paths.
pub open spec fn paths_of(ps: Seq<Vec<&str>>) -> Seq<Seq<Seq<char>>> {
    ps.map_values(|p: Vec<&str>| key_path(p@))
}

/// The first key missing along the first path that cannot be followed.
fn first_missing_in(v: &JsonValue, ps: &Vec<Vec<&str>>) -> (r: Option<String>)
    ensures
        match r {
            Some(k) => first_missing(*v, paths_of(ps@)) == Some(k@),
            None => first_missing(*v, paths_of(ps@)) is None,
        },
{
    let ghost all = paths_of(ps@);
    let mut i: usize = 0;
    assert(all.skip(0) =~= all);
    while i < ps.len()
        invariant
            i <= ps@.len(),
            all == paths_of(ps@),
            first_missing(*v, all) == first_missing(*v, all.skip(i as int)),
        decreases ps@.len() - i,
    {
        assert(all.skip(i as int)[0] == key_path(ps@[i as int]@));
        assert(all.skip(i as int).drop_first() =~= all.skip(i + 1));
        match missing_key(v, ps[i].as_slice()) {
            Some(k) => {
                return Some(k);
            },
            None => {},
        }
        i = i + 1;
    }
    None
}

/// The first payload key, in reading order, that the line of an event
/// needs and the payload lacks.
pub fn missing_field(event: &Event) -> (r: Option<String>)
    ensures
        match r {
            Some(k) => first_missing(event.payload, event_field_paths(event.event_type@)) == Some(k@),
            None => first_missing(event.payload, event_field_paths(event.event_type@)) is None,
        },
        r is None <==> event_fields_present(*event),
        !reported_event_types().contains(event.event_type@) ==> r is None,
{
    proof {
        if !reported_event_types().contains(event.event_type@) {
            lemma_other_event_types(*event);
        }
        lemma_first_missing(event.payload, event_field_paths(event.event_type@));
    }
    let t = event.event_type.as_str();
    let ghost p = event_field_paths(t@);
    let ps: Vec<Vec<&str>> = if text_eq(t, "CommitCommentEvent") {
        vec![vec!["comment", "body"], vec!["comment", "html_url"]]
    } else if text_eq(t, "CreateEvent") {
        vec![vec!["ref_type"], vec!["full_ref"]]
    } else if text_eq(t, "DeleteEvent") {
        vec![vec!["ref_type"], vec!["full_ref"]]
    } else if text_eq(t, "DiscussionEvent") {
        vec![vec!["discussion", "url"]]
    } else if text_eq(t, "PullRequestEvent") {
        vec![
            vec!["action"],
            vec!["pull_request", "title"],
            vec!["pull_request", "number"],
            vec!["pull_request", "html_url"],
        ]
    } else if text_eq(t, "PushEvent") {
        vec![vec!["head"], vec!["ref"]]
    } else {
        Vec::new()
    };
    assert(paths_of(ps@) =~= p) by {
        assert forall|i: int| 0 <= i < p.len() implies paths_of(ps@)[i] =~= p[i] by {
        }
    }
    first_missing_in(&event.payload, &ps)
}

/// The line shown for an event; the payload must hold the paths it reads.
pub fn describe_event(event: &Event) -> (r: String)
    requires
        event_fields_present(*event),
    ensures
        r@ == event_message(*event),
        !reported_event_types().contains(event.event_type@) ==> r@ == "And some other stuff"@,
{
    proof {
        if !reported_event_types().contains(event.event_type@) {
            lemma_other_event_types(*event);
        }
    }
    let t = event.event_type.as_str();
    let ghost p = event_field_paths(t@);
    if text_eq(t, "CommitCommentEvent") {
        assert(at_path(event.payload, p[0]) is Some && at_path(event.payload, p[1]) is Some);
        assert(p[0] =~= seq!["comment"@, "body"@] && p[1] =~= seq!["comment"@, "html_url"@]);
        let mut r = String::from_str("- Commented on a commit:\n  \"");
        r.append(field2(event, "comment", "body").as_str());
        r.append("\"\n  Link: ");
        r.append(field2(event, "comment", "html_url").as_str());
        r
    } else if text_eq(t, "CreateEvent") {
        assert(at_path(event.payload, p[0]) is Some && at_path(event.payload, p[1]) is Some);
        assert(p[0] =~= seq!["ref_type"@] && p[1] =~= seq!["full_ref"@]);
        let mut r = String::from_str("- Created ");
        r.append(field1(event, "ref_type").as_str());
        r.append(": ");
        r.append(field1(event, "full_ref").as_str());
        r
    } else if text_eq(t, "DeleteEvent") {
        assert(at_path(event.payload, p[0]) is Some && at_path(event.payload, p[1]) is Some);
        assert(p[0] =~= seq!["ref_type"@] && p[1] =~= seq!["full_ref"@]);
        let mut r = String::from_str("- Deleted ");
        r.append(field1(event, "ref_type").as_str());
        r.append(": ");
        r.append(field1(event, "full_ref").as_str());
        r
    } else if text_eq(t, "DiscussionEvent") {
        assert(at_path(event.payload, p[0]) is Some);
        assert(p[0] =~= seq!["discussion"@, "url"@]);
        let mut r = String::from_str("- Discussion created: ");
        r.append(field2(event, "discussion", "url").as_str());
        r
    } else if text_eq(t, "PullRequestEvent") {
        assert(at_path(event.payload, p[0]) is Some && at_path(event.payload, p[1]) is Some);
        assert(at_path(event.payload, p[2]) is Some && at_path(event.payload, p[3]) is Some);
        assert(p[0] =~= seq!["action"@] && p[1] =~= seq!["pull_request"@, "title"@]);
        assert(p[2] =~= seq!["pull_request"@, "number"@] && p[3] =~= seq!["pull_request"@, "html_url"@]);
        let action = field1(event, "action");
        let mut r = String::from_str("- ");
        r.append(action.as_str().capitalize_first().as_str());
        r.append(" a pull request:\n  Title: ");
        r.append(field2(event, "pull_request", "title").as_str());
        r.append("#");
        r.append(field2(event, "pull_request", "number").as_str());
        r.append("\n  Link: ");
        r.append(field2(event, "pull_request", "html_url").as_str());
        r
    } else if text_eq(t, "PushEvent") {
        assert(at_path(event.payload, p[0]) is Some && at_path(event.payload, p[1]) is Some);
        assert(p[0] =~= seq!["head"@] && p[1] =~= seq!["ref"@]);
        let mut r = String::from_str("- Pushed a commit ");
        r.append(field1(event, "head").as_str());
        r.append("\n");
        r.append(field1(event, "ref").as_str());
        r
    } else {
        String::from_str("And some other stuff")
    }
}

/// The lines shown for a list of events, one per event in order; every
/// payload must hold the paths its line reads.
pub fn display_events(events: &Vec<Event>) -> (lines: Vec<String>)
    requires
        forall|i: int| 0 <= i < events@.len() ==> event_fields_present(#[trigger] events@[i]),
    ensures
        lines@.len() == events@.len(),
        forall|i: int| 0 <= i < events@.len() ==> #[trigger] lines@[i]@ == event_message(events@[i]),
{
    let mut lines: Vec<String> = Vec::new();
    let mut i: usize = 0;
    while i < events.len()
        invariant
            i <= events@.len(),
            lines@.len() == i,
            forall|j: int| 0 <= j < events@.len() ==> event_fields_present(#[trigger] events@[j]),
            forall|j: int| 0 <= j < i ==> #[trigger] lines@[j]@ == event_message(events@[j]),
        decreases events@.len() - i,
    {
        lines.push(describe_event(&events[i]));
        i = i + 1;
    }
    lines
}

/// The address of the public events of a user.
pub open spec fn events_url_text(username: Seq<char>) -> Seq<char> {
    "https://api.github.com"@ + "/users/"@ + username + "/events"@
}

/// The address of the public events of a user.
pub fn events_url(username: &str) -> (r: String)
    ensures
        r@ == events_url_text(username@),
{
    let mut r = String::from_str("https://api.github.com");
    r.append("/users/");
    r.append(username);
    r.append("/events");
    r
}

/// The value of the `Authorization` header for a token.
pub fn bearer_authorization(token: &str) -> (r: String)
    ensures
        r@ == "Bearer "@ + token@,
{
    let mut r = String::from_str("Bearer ");
    r.append(token);
    r
}

/// Whether the creation time of an event is a valid RFC 3339 time.
pub open spec fn created_at_parses(ev: Event) -> bool {
    rfc3339_instant(ev.created_at@) is Some
}

/// The seconds since the epoch of an event's creation time, where it is
/// a valid RFC 3339 time.
pub open spec fn created_at_secs(ev: Event) -> int {
    rfc3339_instant(ev.created_at@).unwrap().0 as int
}

/// Whether `day` is what the machine's time zone makes of an event's
/// creation instant: `chrono`'s answer for exactly that instant, with no
/// other input, and `None` for a time that cannot be read.
pub open spec fn zone_day_of_event(ev: Event, day: Option<CalendarDate>) -> bool {
    match rfc3339_instant(ev.created_at@) {
        Some((secs, nanos)) => chrono_local_day(secs, nanos, day),
        None => day is None,
    }
}

/// Whether `day` is the local day of an event's creation: the zone's day of
/// its creation instant; a day is given exactly when the creation time can
/// be read, and it is the UTC day of that time, the day before or the day
/// after.
pub open spec fn is_event_day(ev: Event, day: Option<CalendarDate>) -> bool {
    &&& zone_day_of_event(ev, day)
    &&& (day is Some) == created_at_parses(ev)
    &&& match day {
        Some(d) => within_a_day_of_utc(d, created_at_secs(ev)),
        None => true,
    }
}

/// The calendar day, in the machine's time zone, on which an event was
/// created; `None` exactly when its creation time is not a valid RFC 3339
/// time. Which of the UTC day of that time and its two neighbours comes
/// back depends on the machine's time zone.
pub fn event_local_date(event: &Event) -> (r: Option<CalendarDate>)
    ensures
        is_event_day(*event, r),
{
    match parse_rfc3339(event.created_at.as_str()) {
        Some((secs, nanos)) => local_date(secs, nanos),
        None => None,
    }
}

/// The events whose day is `today`, in order: `dates[i]` is the day of
/// `events[i]`.
pub open spec fn events_on(events: Seq<Event>, dates: Seq<Option<CalendarDate>>, today: CalendarDate) -> Seq<Event>
    decreases events.len(),
{
    if events.len() == 0 {
        Seq::empty()
    } else {
        let before = events_on(events.drop_last(), dates, today);
        if dates[events.len() - 1] == Some(today) {
            before.push(events.last())
        } else {
            before
        }
    }
}

/// Keeps the events whose day, as given in `dates`, is `today`.
pub fn retain_events_on(events: &mut Vec<Event>, dates: &Vec<Option<CalendarDate>>, today: CalendarDate)
    requires
        dates@.len() == old(events)@.len(),
    ensures
        final(events)@ == events_on(old(events)@, dates@, today),
{
    let mut rest: Vec<Event> = Vec::new();
    std::mem::swap(&mut rest, events);
    let ghost orig = rest@;
    let mut kept: Vec<Event> = Vec::new();
    let mut taken: Vec<Event> = Vec::new();
    while rest.len() > 0
        invariant
            rest@.len() <= orig.len(),
            rest@ == orig.take(rest@.len() as int),
            taken@.len() == orig.len() - rest@.len(),
            forall|j: int| 0 <= j < taken@.len() ==> #[trigger] taken@[j] == orig[orig.len() - 1 - j],
        decreases rest@.len(),
    {
        let ghost m = rest@.len();
        let e = rest.pop().unwrap();
        assert(rest@ =~= orig.take(m - 1));
        taken.push(e);
    }
    let n = taken.len();
    let mut i: usize = 0;
    assert(orig.take(0) =~= Seq::<Event>::empty());
    while i < n
        invariant
            n == orig.len(),
            n == dates@.len(),
            i <= n,
            taken@.len() == n - i,
            forall|j: int| 0 <= j < taken@.len() ==> #[trigger] taken@[j] == orig[orig.len() - 1 - j],
            kept@ == events_on(orig.take(i as int), dates@, today),
        decreases n - i,
    {
        let e = taken.pop().unwrap();
        assert(e == orig[i as int]);
        assert(orig.take(i + 1).drop_last() =~= orig.take(i as int));
        assert(orig.take(i + 1).last() == orig[i as int]);
        if dates[i] == Some(today) {
            kept.push(e);
        }
        i = i + 1;
    }
    assert(orig.take(n as int) =~= orig);
    *events = kept;
}

/// The creation times that are not valid RFC 3339 times, in order.
pub open spec fn unreadable_times(events: Seq<Event>) -> Seq<Seq<char>>
    decreases events.len(),
{
    if events.len() == 0 {
        Seq::empty()
    } else {
        let before = unreadable_times(events.drop_last());
        if created_at_parses(events.last()) {
            before
        } else {
            before.push(events.last().created_at@)
        }
    }
}

/// Only the first `events.len()` days matter.
proof fn lemma_events_on_prefix_dates(
    events: Seq<Event>,
    dates: Seq<Option<CalendarDate>>,
    short: Seq<Option<CalendarDate>>,
    today: CalendarDate,
)
    requires
        events.len() <= short.len() <= dates.len(),
        forall|i: int| 0 <= i < short.len() ==> dates[i] == short[i],
    ensures
        events_on(events, dates, today) == events_on(events, short, today),
    decreases events.len(),
{
    if events.len() > 0 {
        lemma_events_on_prefix_dates(events.drop_last(), dates, short, today);
    }
}

/// Events kept for a day all come with a day, hence a valid time.
proof fn lemma_events_on_parse(events: Seq<Event>, dates: Seq<Option<CalendarDate>>, today: CalendarDate)
    requires
        dates.len() == events.len(),
        forall|i: int| 0 <= i < dates.len() && !created_at_parses(events[i]) ==> dates[i] is None,
    ensures
        forall|i: int| 0 <= i < events_on(events, dates, today).len() ==> created_at_parses(
            #[trigger] events_on(events, dates, today)[i],
        ),
    decreases events.len(),
{
    if events.len() > 0 {
        let d = dates.drop_last();
        lemma_events_on_prefix_dates(events.drop_last(), dates, d, today);
        lemma_events_on_parse(events.drop_last(), d, today);
    }
}

/// The events kept for a day are exactly those of that day: each kept event
/// is one of the events whose day is `today`, and every event whose day is
/// `today` is kept.
pub proof fn lemma_events_on_exact(events: Seq<Event>, dates: Seq<Option<CalendarDate>>, today: CalendarDate)
    requires
        dates.len() == events.len(),
    ensures
        forall|k: int|
            0 <= k < events_on(events, dates, today).len() ==> exists|i: int|
                0 <= i < events.len() && events[i] == #[trigger] events_on(events, dates, today)[k] && dates[i]
                    == Some(today),
        forall|i: int|
            0 <= i < events.len() && dates[i] == Some(today) ==> events_on(events, dates, today).contains(
                #[trigger] events[i],
            ),
    decreases events.len(),
{
    if events.len() > 0 {
        let pre = events.drop_last();
        let d = dates.drop_last();
        lemma_events_on_prefix_dates(pre, dates, d, today);
        lemma_events_on_exact(pre, d, today);
        let before = events_on(pre, dates, today);
        let all = events_on(events, dates, today);
        let n = events.len() - 1;
        assert forall|k: int| 0 <= k < all.len() implies exists|i: int|
            0 <= i < events.len() && events[i] == #[trigger] all[k] && dates[i] == Some(today) by {
            if k < before.len() {
                assert(all[k] == before[k]);
                let i = choose|i: int| 0 <= i < pre.len() && pre[i] == #[trigger] before[k] && d[i] == Some(today);
                assert(events[i] == pre[i]);
            } else {
                assert(events[n] == all[k]);
            }
        }
        assert forall|i: int| 0 <= i < events.len() && dates[i] == Some(today) implies all.contains(
            #[trigger] events[i],
        ) by {
            if i < n {
                assert(pre[i] == events[i]);
                assert(d[i] == dates[i]);
                assert(before.contains(pre[i]));
                let k = choose|k: int| 0 <= k < before.len() && before[k] == pre[i];
                assert(all[k] == before[k]);
            } else {
                assert(all[all.len() - 1] == events[n]);
            }
        }
    }
}

/// Only events that the zone puts on `today` are kept, and every event it
/// was found to put on `today` is kept: with each event given the zone's
/// day of its creation instant, the kept events are exactly those.
pub proof fn lemma_kept_events_are_of_today(
    events: Seq<Event>,
    dates: Seq<Option<CalendarDate>>,
    today: CalendarDate,
)
    requires
        are_event_days(events, dates),
    ensures
        forall|k: int|
            0 <= k < events_on(events, dates, today).len() ==> zone_day_of_event(
                #[trigger] events_on(events, dates, today)[k],
                Some(today),
            ),
        forall|i: int|
            0 <= i < events.len() && dates[i] == Some(today) ==> events_on(events, dates, today).contains(
                #[trigger] events[i],
            ),
{
    lemma_events_on_exact(events, dates, today);
    assert forall|k: int| 0 <= k < events_on(events, dates, today).len() implies zone_day_of_event(
        #[trigger] events_on(events, dates, today)[k],
        Some(today),
    ) by {
        let i = choose|i: int|
            0 <= i < events.len() && events[i] == #[trigger] events_on(events, dates, today)[k] && dates[i]
                == Some(today);
        assert(is_event_day(events[i], dates[i]));
    }
}

/// Whether `dates` are local days of the events' creation, one for each.
pub open spec fn are_event_days(events: Seq<Event>, dates: Seq<Option<CalendarDate>>) -> bool {
    &&& dates.len() == events.len()
    &&& forall|i: int| 0 <= i < dates.len() ==> is_event_day(events[i], #[trigger] dates[i])
}

/// Keeps the events created today, in the machine's time zone, and hands
/// back the creation times that could not be read (their events are
/// dropped). Each readable event gets its local day, the UTC day of its
/// creation or a neighbour of it as the zone decides; the kept events are
/// those whose day is `today`, in order. Every kept event has a valid
/// creation time, and the unreadable times are listed in order.
pub fn retain_todays_events(events: &mut Vec<Event>, today: CalendarDate) -> (unreadable: Vec<String>)
    ensures
        exists|dates: Seq<Option<CalendarDate>>|
            #![trigger events_on(old(events)@, dates, today)]
            are_event_days(old(events)@, dates) && final(events)@ == events_on(old(events)@, dates, today),
        forall|i: int| 0 <= i < final(events)@.len() ==> created_at_parses(#[trigger] final(events)@[i]),
        forall|i: int|
            0 <= i < final(events)@.len() ==> zone_day_of_event(#[trigger] final(events)@[i], Some(today)),
        unreadable@.map_values(|s: String| s@) == unreadable_times(old(events)@),
{
    let mut dates: Vec<Option<CalendarDate>> = Vec::new();
    let mut unreadable: Vec<String> = Vec::new();
    let mut i: usize = 0;
    assert(events@.take(0) =~= Seq::<Event>::empty());
    assert(unreadable@.map_values(|s: String| s@) =~= Seq::<Seq<char>>::empty());
    while i < events.len()
        invariant
            i <= events@.len(),
            events@ == old(events)@,
            dates@.len() == i,
            forall|j: int| 0 <= j < i ==> is_event_day(events@[j], #[trigger] dates@[j]),
            unreadable@.map_values(|s: String| s@) == unreadable_times(events@.take(i as int)),
        decreases events@.len() - i,
    {
        assert(events@.take(i + 1).drop_last() =~= events@.take(i as int));
        assert(events@.take(i + 1).last() == events@[i as int]);
        let d = event_local_date(&events[i]);
        dates.push(d);
        if parse_rfc3339(events[i].created_at.as_str()).is_none() {
            let ghost before = unreadable@;
            unreadable.push(events[i].created_at.clone());
            assert(unreadable@.map_values(|s: String| s@) =~= before.map_values(|s: String| s@).push(
                events@[i as int].created_at@,
            ));
        }
        i = i + 1;
    }
    assert(events@.take(events@.len() as int) =~= events@);
    assert(are_event_days(old(events)@, dates@));
    proof {
        lemma_events_on_parse(old(events)@, dates@, today);
        lemma_kept_events_are_of_today(old(events)@, dates@, today);
    }
    retain_events_on(events, &dates, today);
    unreadable
}

} // verus!
