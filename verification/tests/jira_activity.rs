use chrono::{Datelike, TimeZone};
use daily_activity::datetime::CalendarDate;
use daily_activity::jira::{
    any_comment_on, api_base_url, candidate_jql, comment_is_mine_today, comment_local_date, comment_matches,
    comments_url, issue_has_my_comment_today, myself_url, owned_issues_jql, search_url, Activity, Comment,
    CommentAuthor, Issue, IssueFields, SearchPager, SearchResponse,
};

fn issue(key: &str, summary: &str) -> Issue {
    Issue { key: key.to_string(), fields: IssueFields { summary: summary.to_string() } }
}

fn comment(author: &str, created: &str) -> Comment {
    Comment { author: CommentAuthor { account_id: author.to_string() }, created: created.to_string() }
}

fn local_day_of(secs: i64) -> CalendarDate {
    let d = chrono::Local.timestamp_opt(secs, 0).unwrap().date_naive();
    CalendarDate { year: d.year(), month: d.month(), day: d.day() }
}

#[test]
fn jira_addresses_and_queries() {
    let base = api_base_url("https://x.atlassian.net");
    assert_eq!(base, "https://x.atlassian.net/rest/api/3");
    assert_eq!(myself_url(&base), "https://x.atlassian.net/rest/api/3/myself");
    assert_eq!(search_url(&base), "https://x.atlassian.net/rest/api/3/search/jql");
    assert_eq!(comments_url(&base, "AB-1"), "https://x.atlassian.net/rest/api/3/issue/AB-1/comment");
    assert_eq!(
        owned_issues_jql(),
        "(assignee = currentUser() OR reporter = currentUser()) AND updated >= startOfDay() ORDER BY updated DESC"
    );
    assert_eq!(
        candidate_jql(&vec!["AB".to_string(), "CD".to_string()]),
        "project IN (AB,CD) AND updated >= startOfDay() ORDER BY updated DESC"
    );
    assert_eq!(candidate_jql(&Vec::new()), "project IN () AND updated >= startOfDay() ORDER BY updated DESC");
}

#[test]
fn pager_walks_the_pages() {
    let mut pager = SearchPager::new("q".to_string());
    assert!(!pager.is_done());
    let first = pager.query();
    assert_eq!(first, vec![("jql".to_string(), "q".to_string()), ("fields".to_string(), "summary".to_string())]);
    pager.receive(SearchResponse { issues: vec![issue("A-1", "one")], next_page_token: Some("tok".to_string()) });
    assert!(!pager.is_done());
    let second = pager.query();
    assert_eq!(second[2], ("nextPageToken".to_string(), "tok".to_string()));
    assert_eq!(second.len(), 3);
    pager.receive(SearchResponse { issues: vec![issue("A-2", "two")], next_page_token: None });
    assert!(pager.is_done());
    let keys: Vec<String> = pager.into_issues().into_iter().map(|i| i.key).collect();
    assert_eq!(keys, vec!["A-1", "A-2"]);
}

#[test]
fn activity_keeps_each_issue_once() {
    let mut activity = Activity::new();
    activity.add_owned(vec![issue("A-1", "one"), issue("A-2", "two"), issue("A-1", "again")]);
    assert!(activity.is_seen("A-1"));
    assert!(!activity.is_seen("B-9"));
    activity.add_owned(vec![issue("A-2", "dup"), issue("A-3", "three")]);
    activity.record_commented(issue("B-9", "nine"));
    assert_eq!(
        activity.lines(),
        vec![
            "- A-1 [assignee/reporter]: one",
            "- A-2 [assignee/reporter]: two",
            "- A-3 [assignee/reporter]: three",
            "- B-9 [commented]: nine",
        ]
    );
}

#[test]
fn comments_match_author_and_day() {
    let day = CalendarDate { year: 2024, month: 5, day: 6 };
    let c = comment("me", "2024-05-06T10:00:00.000+0000");
    assert!(comment_matches(&c, "me", Some(day), day));
    assert!(!comment_matches(&c, "you", Some(day), day));
    assert!(!comment_matches(&c, "me", None, day));
    let list = vec![comment("you", "x"), c];
    assert!(any_comment_on(&list, &vec![Some(day), Some(day)], "me", day));
    assert!(!any_comment_on(&list, &vec![Some(day), None], "me", day));
}

#[test]
fn comment_times_are_read_with_milliseconds_and_offset() {
    let text = "2024-05-06T10:00:00.123+0200";
    let secs = chrono::DateTime::parse_from_str(text, "%Y-%m-%dT%H:%M:%S%.3f%z").unwrap().timestamp();
    let today = local_day_of(secs);
    let c = comment("me", text);
    assert_eq!(comment_local_date(&c), Some(today));
    assert!(comment_is_mine_today(&c, "me", today));
    assert!(!comment_is_mine_today(&c, "other", today));
    let rfc = comment("me", "2024-05-06T10:00:00Z");
    assert_eq!(comment_local_date(&rfc), None);
    assert!(!comment_is_mine_today(&rfc, "me", today));
    assert!(issue_has_my_comment_today(&vec![rfc, comment("x", text), c], "me", today));
    assert!(!issue_has_my_comment_today(&Vec::new(), "me", today));
}

#[test]
fn comment_times_at_the_ends_of_the_range_do_not_panic() {
    let fmt = "%Y-%m-%dT%H:%M:%S%.3f%z";
    for text in ["+262142-12-31T23:59:59.000+0000", "-262143-01-01T00:00:00.000+0000"] {
        let secs = chrono::DateTime::parse_from_str(text, fmt).unwrap().timestamp();
        let c = comment("me", text);
        let day = comment_local_date(&c);
        if let Some(d) = day {
            let utc = chrono::DateTime::from_timestamp(secs, 0).unwrap().date_naive();
            let local = chrono::NaiveDate::from_ymd_opt(d.year, d.month, d.day).unwrap();
            assert!((local - utc).num_days().abs() <= 1);
        }
        let today = CalendarDate { year: 2024, month: 1, day: 1 };
        assert!(!comment_is_mine_today(&c, "me", today));
        assert!(!issue_has_my_comment_today(&vec![c], "me", today));
    }
}

#[test]
fn comment_days_stay_within_a_day_of_utc() {
    let text = "2024-03-01T00:30:00.000+0000";
    let c = comment("me", text);
    let d = comment_local_date(&c).unwrap();
    let local = chrono::NaiveDate::from_ymd_opt(d.year, d.month, d.day).unwrap();
    let utc = chrono::NaiveDate::from_ymd_opt(2024, 3, 1).unwrap();
    assert!((local - utc).num_days().abs() <= 1);
}

#[test]
fn candidates_join_once_when_commented_today() {
    let text = "2024-05-06T10:00:00.123+0200";
    let secs = chrono::DateTime::parse_from_str(text, "%Y-%m-%dT%H:%M:%S%.3f%z").unwrap().timestamp();
    let today = local_day_of(secs);
    let mine = vec![comment("other", text), comment("me", text)];
    let theirs = vec![comment("other", text)];
    let mut activity = Activity::new();
    activity.add_owned(vec![issue("AB-1", "owned")]);
    assert!(!activity.consider_candidate(issue("AB-1", "again"), &mine, "me", today));
    assert!(!activity.consider_candidate(issue("AB-2", "quiet"), &theirs, "me", today));
    assert!(activity.consider_candidate(issue("AB-3", "talked"), &mine, "me", today));
    assert!(!activity.consider_candidate(issue("AB-3", "talked"), &mine, "me", today));
    assert!(activity.is_seen("AB-3"));
    assert!(!activity.is_seen("AB-2"));
    assert_eq!(
        activity.lines(),
        vec!["- AB-1 [assignee/reporter]: owned".to_string(), "- AB-3 [commented]: talked".to_string()]
    );
}
