//! The Jira part of the daily report: the queries it sends, the paging of
//! search results, the issues of the day without repeats, and its lines.
use vstd::prelude::*;
use crate::datetime::{
    CalendarDate, chrono_local_day, formatted_instant, local_date, local_day_in_range, parse_formatted, within_a_day_of_utc,
};
use crate::text::{joined, text_eq};

verus! {

/// The account answering the `myself` request.
pub struct Myself {
    pub account_id: String,
}

/// The summary field of an issue.
pub struct IssueFields {
    pub summary: String,
}

/// An issue found by a search.
pub struct Issue {
    pub key: String,
    pub fields: IssueFields,
}

/// One page of search results, and the token of the next page if there is
/// one.
pub struct SearchResponse {
    pub issues: Vec<Issue>,
    pub next_page_token: Option<String>,
}

/// The author of a comment.
pub struct CommentAuthor {
    pub account_id: String,
}

/// A comment of an issue.
pub struct Comment {
    pub author: CommentAuthor,
    pub created: String,
}

/// The comments of an issue.
pub struct CommentsResponse {
    pub comments: Vec<Comment>,
}

/// The root of the REST API (version 3) under a site's address.
pub fn api_base_url(jira_base_url: &str) -> (r: String)
    ensures
        r@ == jira_base_url@ + "/rest/api/3"@,
{
    let mut r = String::from_str(jira_base_url);
    r.append("/rest/api/3");
    r
}

/// The address of the `myself` resource.
pub fn myself_url(base_url: &str) -> (r: String)
    ensures
        r@ == base_url@ + "/myself"@,
{
    let mut r = String::from_str(base_url);
    r.append("/myself");
    r
}

/// The address of the JQL search resource.
pub fn search_url(base_url: &str) -> (r: String)
    ensures
        r@ == base_url@ + "/search/jql"@,
{
    let mut r = String::from_str(base_url);
    r.append("/search/jql");
    r
}

/// The address of the comments of an issue.
pub fn comments_url(base_url: &str, issue_key: &str) -> (r: String)
    ensures
        r@ == base_url@ + "/issue/"@ + issue_key@ + "/comment"@,
{
    let mut r = String::from_str(base_url);
    r.append("/issue/");
    r.append(issue_key);
    r.append("/comment");
    r
}

/// The query for the issues assigned to or reported by the user and
/// updated today, latest first.
pub open spec fn owned_jql_text() -> Seq<char> {
    "(assignee = currentUser() OR reporter = currentUser()) AND updated >= startOfDay() ORDER BY updated DESC"@
}

/// The query for the issues assigned to or reported by the user and
/// updated today.
pub fn owned_issues_jql() -> (r: String)
    ensures
        r@ == owned_jql_text(),
{
    String::from_str(
        "(assignee = currentUser() OR reporter = currentUser()) AND updated >= startOfDay() ORDER BY updated DESC",
    )
}

/// The texts of a list of strings.
pub open spec fn string_texts(v: Seq<String>) -> Seq<Seq<char>> {
    v.map_values(|s: String| s@)
}

/// The query for the issues of the given projects updated today.
pub open spec fn candidate_jql_text(project_keys: Seq<Seq<char>>) -> Seq<char> {
    "project IN ("@ + joined(project_keys, ","@) + ") AND updated >= startOfDay() ORDER BY updated DESC"@
}

/// The query for the issues of the given projects updated today.
pub fn candidate_jql(project_keys: &Vec<String>) -> (r: String)
    ensures
        r@ == candidate_jql_text(string_texts(project_keys@)),
{
    let ghost keys = string_texts(project_keys@);
    let mut list = String::new();
    let mut i: usize = 0;
    assert(keys.take(0) =~= Seq::<Seq<char>>::empty());
    while i < project_keys.len()
        invariant
            i <= project_keys@.len(),
            keys == string_texts(project_keys@),
            list@ == joined(keys.take(i as int), ","@),
        decreases project_keys@.len() - i,
    {
        assert(keys.take(i + 1).drop_last() =~= keys.take(i as int));
        assert(keys.take(i + 1).last() == project_keys@[i as int]@);
        if i > 0 {
            list.append(",");
        } else {
            assert(keys.take(1) =~= seq![project_keys@[0]@]);
        }
        list.append(project_keys[i].as_str());
        i = i + 1;
    }
    assert(keys.take(project_keys@.len() as int) =~= keys);
    let mut r = String::from_str("project IN (");
    r.append(list.as_str());
    r.append(") AND updated >= startOfDay() ORDER BY updated DESC");
    r
}

/// The texts of the query parameters of a search page.
pub open spec fn query_texts(q: Seq<(String, String)>) -> Seq<(Seq<char>, Seq<char>)> {
    q.map_values(|p: (String, String)| (p.0@, p.1@))
}

/// The query parameters of a search page: the query, the one field asked
/// for, and the token of the page when it is not the first.
pub open spec fn page_query(jql: Seq<char>, token: Option<Seq<char>>) -> Seq<(Seq<char>, Seq<char>)> {
    let base = seq![("jql"@, jql), ("fields"@, "summary"@)];
    match token {
        Some(t) => base.push(("nextPageToken"@, t)),
        None => base,
    }
}

/// Every page is asked with the search's own query and the one field, in
/// that order; a token only adds a third pair after them. So the page after
/// a token asks for exactly what the first page asked for, plus the token.
pub proof fn lemma_page_query_shape(jql: Seq<char>, token: Option<Seq<char>>)
    ensures
        page_query(jql, token).len() == (if token is Some { 3int } else { 2int }),
        page_query(jql, token)[0] == ("jql"@, jql),
        page_query(jql, token)[1] == ("fields"@, "summary"@),
        token matches Some(t) ==> page_query(jql, token)[2] == ("nextPageToken"@, t),
        token matches Some(t) ==> page_query(jql, token) == page_query(jql, None).push(("nextPageToken"@, t)),
{
}

/// The view of an optional text.
pub open spec fn opt_text(o: Option<String>) -> Option<Seq<char>> {
    match o {
        Some(s) => Some(s@),
        None => None,
    }
}

/// Walks the pages of a search: the caller sends `query()`, hands the page
/// to `receive`, and stops once `is_done()`.
pub struct SearchPager {
    pub jql: String,
    pub issues: Vec<Issue>,
    pub next_page_token: Option<String>,
    pub done: bool,
}

impl SearchPager {
    /// A search that has not fetched any page.
    pub fn new(jql: String) -> (p: SearchPager)
        ensures
            p.jql == jql,
            p.issues@.len() == 0,
            p.next_page_token is None,
            !p.done,
    {
        SearchPager { jql, issues: Vec::new(), next_page_token: None, done: false }
    }

    /// The parameters of the next page; the token is used up.
    pub fn query(&mut self) -> (q: Vec<(String, String)>)
        ensures
            query_texts(q@) == page_query(old(self).jql@, opt_text(old(self).next_page_token)),
            q@.len() == (if old(self).next_page_token is Some { 3int } else { 2int }),
            q@[0].0@ == "jql"@ && q@[0].1@ == old(self).jql@,
            q@[1].0@ == "fields"@ && q@[1].1@ == "summary"@,
            old(self).next_page_token matches Some(t) ==> q@[2].0@ == "nextPageToken"@ && q@[2].1@ == t@,
            final(self).next_page_token is None,
            final(self).jql == old(self).jql,
            final(self).issues == old(self).issues,
            final(self).done == old(self).done,
    {
        let mut q: Vec<(String, String)> = Vec::new();
        q.push((String::from_str("jql"), self.jql.clone()));
        q.push((String::from_str("fields"), String::from_str("summary")));
        let token = self.next_page_token.take();
        match token {
            Some(t) => {
                q.push((String::from_str("nextPageToken"), t));
            },
            None => {},
        }
        assert(query_texts(q@) =~= page_query(old(self).jql@, opt_text(old(self).next_page_token)));
        proof {
            lemma_page_query_shape(old(self).jql@, opt_text(old(self).next_page_token));
            assert(query_texts(q@)[0] == (q@[0].0@, q@[0].1@));
            assert(query_texts(q@)[1] == (q@[1].0@, q@[1].1@));
            if q@.len() > 2 {
                assert(query_texts(q@)[2] == (q@[2].0@, q@[2].1@));
            }
        }
        q
    }

    /// Takes in a page: its issues follow the ones already found, its token
    /// is the next one, and the search is done when there is none.
    pub fn receive(&mut self, response: SearchResponse)
        ensures
            final(self).issues@ == old(self).issues@ + response.issues@,
            final(self).next_page_token == response.next_page_token,
            final(self).done == (response.next_page_token is None),
            final(self).jql == old(self).jql,
    {
        let SearchResponse { issues, next_page_token } = response;
        let mut issues = issues;
        self.done = next_page_token.is_none();
        self.next_page_token = next_page_token;
        self.issues.append(&mut issues);
    }

    /// Whether the last page has been received.
    pub fn is_done(&self) -> (r: bool)
        ensures
            r == self.done,
    {
        self.done
    }

    /// The issues of all pages received, in order.
    pub fn into_issues(self) -> (r: Vec<Issue>)
        ensures
            r == self.issues,
    {
        self.issues
    }
}

/// The format of comment creation times.
pub open spec fn comment_time_format() -> Seq<char> {
    "%Y-%m-%dT%H:%M:%S%.3f%z"@
}

/// Whether a comment's author is the given account.
pub open spec fn authored_by(c: Comment, account_id: Seq<char>) -> bool {
    c.author.account_id@ == account_id
}

/// Whether a comment's creation time can be read.
pub open spec fn created_parses(c: Comment) -> bool {
    formatted_instant(c.created@, comment_time_format()) is Some
}

/// Whether a comment is the user's and was made on `today`, given the day
/// (in the machine's time zone) of its creation time, if it could be read.
pub fn comment_matches(
    comment: &Comment,
    my_account_id: &str,
    created_day: Option<CalendarDate>,
    today: CalendarDate,
) -> (r: bool)
    ensures
        r == (authored_by(*comment, my_account_id@) && created_day == Some(today)),
{
    if !text_eq(comment.author.account_id.as_str(), my_account_id) {
        return false;
    }
    created_day == Some(today)
}

/// The instant (seconds and nanoseconds since the epoch) of a comment's
/// creation time, where it can be read.
pub open spec fn created_instant(c: Comment) -> (i64, u32) {
    formatted_instant(c.created@, comment_time_format()).unwrap()
}

/// Whether `day` is what the machine's time zone makes of a comment's
/// creation instant: `chrono`'s answer for exactly that instant, with no
/// other input, and `None` for a time that cannot be read.
pub open spec fn zone_day_of_comment(c: Comment, day: Option<CalendarDate>) -> bool {
    match formatted_instant(c.created@, comment_time_format()) {
        Some((secs, nanos)) => chrono_local_day(secs, nanos, day),
        None => day is None,
    }
}

/// Whether `day` is the local day of a comment's creation: the zone's day
/// of its creation instant; a day is given only for a readable time, and
/// always for one at least a day inside `chrono`'s range; it is the UTC day
/// of that time, the day before or the day after.
pub open spec fn is_comment_day(c: Comment, day: Option<CalendarDate>) -> bool {
    &&& zone_day_of_comment(c, day)
    &&& day is Some ==> created_parses(c)
    &&& created_parses(c) && local_day_in_range(created_instant(c).0, created_instant(c).1) ==> day is Some
    &&& match day {
        Some(d) => within_a_day_of_utc(d, created_instant(c).0 as int),
        None => true,
    }
}

/// The day, in the machine's time zone, of a comment's creation time;
/// `None` when the time cannot be read, or lies so close to an end of
/// `chrono`'s range that its local time leaves it. Which of the UTC day of
/// that time and its two neighbours comes back depends on the machine's
/// time zone.
pub fn comment_local_date(comment: &Comment) -> (r: Option<CalendarDate>)
    ensures
        is_comment_day(*comment, r),
{
    match parse_formatted(comment.created.as_str(), "%Y-%m-%dT%H:%M:%S%.3f%z") {
        Some((secs, nanos)) => local_date(secs, nanos),
        None => None,
    }
}

/// Whether a comment is the user's and was made today in the machine's
/// time zone. It never holds for another author or an unreadable time; for
/// the user's own comments it tells whether the local day of the creation
/// time is `today`.
pub fn comment_is_mine_today(comment: &Comment, my_account_id: &str, today: CalendarDate) -> (r: bool)
    ensures
        r ==> authored_by(*comment, my_account_id@) && created_parses(*comment),
        r ==> zone_day_of_comment(*comment, Some(today)),
        authored_by(*comment, my_account_id@) ==> exists|day: Option<CalendarDate>|
            is_comment_day(*comment, day) && r == #[trigger] day_is(day, today),
{
    if !text_eq(comment.author.account_id.as_str(), my_account_id) {
        return false;
    }
    let day = comment_local_date(comment);
    assert(day_is(day, today) == (day == Some(today)));
    comment_matches(comment, my_account_id, day, today)
}

/// Whether a day, if known, is `today`.
pub open spec fn day_is(day: Option<CalendarDate>, today: CalendarDate) -> bool {
    day == Some(today)
}

/// Whether some comment is the user's and was made on `today`, given the
/// day of each comment.
pub fn any_comment_on(
    comments: &Vec<Comment>,
    created_days: &Vec<Option<CalendarDate>>,
    my_account_id: &str,
    today: CalendarDate,
) -> (r: bool)
    requires
        created_days@.len() == comments@.len(),
    ensures
        r == exists|i: int|
            0 <= i < comments@.len() && authored_by(#[trigger] comments@[i], my_account_id@)
                && created_days@[i] == Some(today),
{
    let mut i: usize = 0;
    while i < comments.len()
        invariant
            i <= comments@.len(),
            created_days@.len() == comments@.len(),
            forall|j: int|
                0 <= j < i ==> !(authored_by(#[trigger] comments@[j], my_account_id@) && created_days@[j]
                    == Some(today)),
        decreases comments@.len() - i,
    {
        if comment_matches(&comments[i], my_account_id, created_days[i], today) {
            return true;
        }
        i = i + 1;
    }
    false
}

/// Whether the days are local days of the comments' creation times, one
/// for each.
pub open spec fn days_of_comments(comments: Seq<Comment>, days: Seq<Option<CalendarDate>>) -> bool {
    &&& days.len() == comments.len()
    &&& forall|i: int| 0 <= i < days.len() ==> is_comment_day(comments[i], #[trigger] days[i])
}

/// Whether some comment is the user's and was made on `today` by the days
/// given.
pub open spec fn some_comment_on(
    comments: Seq<Comment>,
    days: Seq<Option<CalendarDate>>,
    my_account_id: Seq<char>,
    today: CalendarDate,
) -> bool {
    exists|i: int| 0 <= i < comments.len() && authored_by(#[trigger] comments[i], my_account_id) && days[i] == Some(today)
}

/// A comment only counts for `today` through its own creation instant: when
/// each comment is given the zone's day of its creation instant and some
/// comment of the user falls on `today`, the zone puts that comment's
/// creation instant on `today`.
pub proof fn lemma_comment_of_today_is_zone_day(
    comments: Seq<Comment>,
    days: Seq<Option<CalendarDate>>,
    my_account_id: Seq<char>,
    today: CalendarDate,
)
    requires
        days_of_comments(comments, days),
        some_comment_on(comments, days, my_account_id, today),
    ensures
        exists|i: int|
            0 <= i < comments.len() && authored_by(comments[i], my_account_id) && zone_day_of_comment(
                #[trigger] comments[i],
                Some(today),
            ),
{
    let i = choose|i: int|
        0 <= i < comments.len() && authored_by(#[trigger] comments[i], my_account_id) && days[i] == Some(today);
    assert(is_comment_day(comments[i], days[i]));
}

/// Whether some comment is the user's and was made today in the machine's
/// time zone: the day of each comment's creation time is taken from the
/// clock, and the result is `any_comment_on` of those days. It holds only
/// through a comment of the user with a readable time.
pub fn issue_has_my_comment_today(comments: &Vec<Comment>, my_account_id: &str, today: CalendarDate) -> (r: bool)
    ensures
        exists|days: Seq<Option<CalendarDate>>|
            days_of_comments(comments@, days) && r == #[trigger] some_comment_on(comments@, days, my_account_id@, today),
        r ==> exists|i: int|
            0 <= i < comments@.len() && authored_by(#[trigger] comments@[i], my_account_id@)
                && created_parses(comments@[i]),
        r ==> exists|i: int|
            0 <= i < comments@.len() && authored_by(comments@[i], my_account_id@) && zone_day_of_comment(
                #[trigger] comments@[i],
                Some(today),
            ),
{
    let mut days: Vec<Option<CalendarDate>> = Vec::new();
    let mut i: usize = 0;
    while i < comments.len()
        invariant
            i <= comments@.len(),
            days@.len() == i,
            forall|j: int| 0 <= j < i ==> is_comment_day(comments@[j], #[trigger] days@[j]),
        decreases comments@.len() - i,
    {
        days.push(comment_local_date(&comments[i]));
        i = i + 1;
    }
    let r = any_comment_on(comments, &days, my_account_id, today);
    assert(days_of_comments(comments@, days@));
    assert(r == some_comment_on(comments@, days@, my_account_id@, today));
    proof {
        if r {
            lemma_comment_of_today_is_zone_day(comments@, days@, my_account_id@, today);
            let k = choose|k: int|
                0 <= k < comments@.len() && authored_by(#[trigger] comments@[k], my_account_id@) && days@[k] == Some(
                    today,
                );
            assert(created_parses(comments@[k]));
        }
    }
    r
}

/// Why an issue is part of the day's activity.
#[derive(PartialEq, Eq, Structural, Clone, Copy, Debug)]
pub enum Reason {
    /// The user is its assignee or reporter.
    AssigneeOrReporter,
    /// The user commented on it today.
    Commented,
}

/// The label of a reason.
pub open spec fn reason_label(r: Reason) -> Seq<char> {
    match r {
        Reason::AssigneeOrReporter => "assignee/reporter"@,
        Reason::Commented => "commented"@,
    }
}

/// The keys of a list of issues.
pub open spec fn issue_keys(issues: Seq<Issue>) -> Seq<Seq<char>> {
    issues.map_values(|i: Issue| i.key@)
}

/// The keys of the issues of the activity.
pub open spec fn entry_keys(entries: Seq<(Issue, Reason)>) -> Seq<Seq<char>> {
    entries.map_values(|e: (Issue, Reason)| e.0.key@)
}

/// The issues of a list whose key is neither among `seen` nor held by an
/// earlier issue of the list, in order.
pub open spec fn first_new(seen: Seq<Seq<char>>, issues: Seq<Issue>) -> Seq<Issue>
    decreases issues.len(),
{
    if issues.len() == 0 {
        Seq::empty()
    } else {
        let before = first_new(seen, issues.drop_last());
        let k = issues.last().key@;
        if seen.contains(k) || issue_keys(issues.drop_last()).contains(k) {
            before
        } else {
            before.push(issues.last())
        }
    }
}

/// Issues paired with a reason.
pub open spec fn with_reason(issues: Seq<Issue>, r: Reason) -> Seq<(Issue, Reason)> {
    issues.map_values(|i: Issue| (i, r))
}

/// The line shown for an issue of the activity.
pub open spec fn activity_line(e: (Issue, Reason)) -> Seq<char> {
    "- "@ + e.0.key@ + " ["@ + reason_label(e.1) + "]: "@ + e.0.fields.summary@
}

/// Whether one of the entries has this key.
fn keys_contain(entries: &Vec<(Issue, Reason)>, key: &str) -> (r: bool)
    ensures
        r == entry_keys(entries@).contains(key@),
{
    let ghost keys = entry_keys(entries@);
    let mut i: usize = 0;
    while i < entries.len()
        invariant
            i <= entries@.len(),
            keys == entry_keys(entries@),
            forall|j: int| 0 <= j < i ==> keys[j] != key@,
        decreases entries@.len() - i,
    {
        if text_eq(entries[i].0.key.as_str(), key) {
            assert(keys[i as int] == key@);
            return true;
        }
        i = i + 1;
    }
    false
}

/// Appends the issues whose key is new, in order, to entries without
/// repeated keys.
fn add_first_new(entries: &mut Vec<(Issue, Reason)>, issues: Vec<Issue>)
    requires
        entry_keys(old(entries)@).no_duplicates(),
    ensures
        entry_keys(final(entries)@).no_duplicates(),
        final(entries)@ == old(entries)@ + with_reason(
            first_new(entry_keys(old(entries)@), issues@),
            Reason::AssigneeOrReporter,
        ),
        forall|k: Seq<char>| #[trigger] entry_keys(final(entries)@).contains(k) <==> (entry_keys(
            old(entries)@,
        ).contains(k) || issue_keys(issues@).contains(k)),
{
    let ghost orig = issues@;
    let ghost seen = entry_keys(old(entries)@);
    let mut rest = issues;
    let mut taken: Vec<Issue> = Vec::new();
    while rest.len() > 0
        invariant
            rest@.len() <= orig.len(),
            rest@ == orig.take(rest@.len() as int),
            taken@.len() == orig.len() - rest@.len(),
            forall|j: int| 0 <= j < taken@.len() ==> #[trigger] taken@[j] == orig[orig.len() - 1 - j],
        decreases rest@.len(),
    {
        let ghost m = rest@.len();
        let e = rest.pop().unwrap();
        assert(rest@ =~= orig.take(m - 1));
        taken.push(e);
    }
    let n = taken.len();
    let mut i: usize = 0;
    assert(orig.take(0) =~= Seq::<Issue>::empty());
    assert(with_reason(first_new(seen, orig.take(0)), Reason::AssigneeOrReporter) =~= Seq::<(Issue, Reason)>::empty());
    assert(old(entries)@ + Seq::<(Issue, Reason)>::empty() =~= old(entries)@);
    while i < n
        invariant
            n == orig.len(),
            i <= n,
            taken@.len() == n - i,
            forall|j: int| 0 <= j < taken@.len() ==> #[trigger] taken@[j] == orig[orig.len() - 1 - j],
            seen == entry_keys(old(entries)@),
            entry_keys(entries@).no_duplicates(),
            entries@ == old(entries)@ + with_reason(
                first_new(seen, orig.take(i as int)),
                Reason::AssigneeOrReporter,
            ),
            forall|k: Seq<char>| #[trigger] entry_keys(entries@).contains(k) <==> (seen.contains(k) || issue_keys(
                orig.take(i as int),
            ).contains(k)),
        decreases n - i,
    {
        let x = taken.pop().unwrap();
        assert(x == orig[i as int]);
        let ghost pre = orig.take(i as int);
        let ghost post = orig.take(i + 1);
        assert(post.drop_last() =~= pre);
        assert(post.last() == x);
        assert(issue_keys(post) =~= issue_keys(pre).push(x.key@));
        let ghost before = entries@;
        assert forall|k2: Seq<char>| #[trigger] entry_keys(before).contains(k2) <==> (seen.contains(k2)
            || issue_keys(pre).contains(k2)) by {
            assert(entry_keys(entries@).contains(k2) == entry_keys(before).contains(k2));
        }
        if !keys_contain(entries, x.key.as_str()) {
            let ghost k = x.key@;
            entries.push((x, Reason::AssigneeOrReporter));
            assert(entry_keys(entries@) =~= entry_keys(before).push(k));
            assert(with_reason(first_new(seen, post), Reason::AssigneeOrReporter) =~= with_reason(
                first_new(seen, pre),
                Reason::AssigneeOrReporter,
            ).push((x, Reason::AssigneeOrReporter)));
            assert(entries@ =~= old(entries)@ + with_reason(
                first_new(seen, post),
                Reason::AssigneeOrReporter,
            ));
            assert forall|k2: Seq<char>| #[trigger] entry_keys(entries@).contains(k2) <==> (seen.contains(k2) || issue_keys(post).contains(k2)) by {
                if k2 == k {
                    assert(entry_keys(entries@).last() == k);
                    assert(issue_keys(post).last() == k);
                } else {
                    if entry_keys(entries@).contains(k2) {
                        let j = choose|j: int| 0 <= j < entry_keys(entries@).len() && entry_keys(entries@)[j] == k2;
                        assert(entry_keys(before)[j] == k2);
                    }
                    if issue_keys(post).contains(k2) {
                        let j = choose|j: int| 0 <= j < issue_keys(post).len() && issue_keys(post)[j] == k2;
                        assert(issue_keys(pre)[j] == k2);
                    }
                    if entry_keys(before).contains(k2) {
                        let j = choose|j: int| 0 <= j < entry_keys(before).len() && entry_keys(before)[j] == k2;
                        assert(entry_keys(entries@)[j] == k2);
                    }
                    if issue_keys(pre).contains(k2) {
                        let j = choose|j: int| 0 <= j < issue_keys(pre).len() && issue_keys(pre)[j] == k2;
                        assert(issue_keys(post)[j] == k2);
                    }
                }
            }
        } else {
            assert(first_new(seen, post) == first_new(seen, pre));
            assert forall|k2: Seq<char>| #[trigger] entry_keys(entries@).contains(k2) <==> (seen.contains(k2) || issue_keys(post).contains(k2)) by {
                assert(entry_keys(entries@).contains(k2) <==> (seen.contains(k2) || issue_keys(pre).contains(k2)));
                if k2 == x.key@ {
                    assert(issue_keys(post)[i as int] == k2);
                    assert(entry_keys(entries@).contains(x.key@));
                }
                if issue_keys(post).contains(k2) && k2 != x.key@ {
                    let j = choose|j: int| 0 <= j < issue_keys(post).len() && issue_keys(post)[j] == k2;
                    assert(issue_keys(pre)[j] == k2);
                }
                if issue_keys(pre).contains(k2) {
                    let j = choose|j: int| 0 <= j < issue_keys(pre).len() && issue_keys(pre)[j] == k2;
                    assert(issue_keys(post)[j] == k2);
                }
            }
        }
        i = i + 1;
    }
    assert(orig.take(n as int) =~= orig);
}


/// The issues of the day's activity, each key at most once, in the order
/// they were found.
pub struct Activity {
    entries: Vec<(Issue, Reason)>,
}

impl Activity {
    /// The issues and reasons, in order.
    pub closed spec fn entries(self) -> Seq<(Issue, Reason)> {
        self.entries@
    }

    /// No key occurs twice.
    #[verifier::type_invariant]
    spec fn keys_unique(self) -> bool {
        entry_keys(self.entries@).no_duplicates()
    }

    /// Whether an issue of this key is part of the activity.
    pub open spec fn has_key(self, key: Seq<char>) -> bool {
        entry_keys(self.entries()).contains(key)
    }

    /// No activity yet.
    pub fn new() -> (a: Activity)
        ensures
            a.entries() == Seq::<(Issue, Reason)>::empty(),
            entry_keys(a.entries()).no_duplicates(),
    {
        let entries: Vec<(Issue, Reason)> = Vec::new();
        assert(entry_keys(entries@) =~= Seq::<Seq<char>>::empty());
        Activity { entries }
    }

    /// Whether an issue of this key is part of the activity.
    pub fn is_seen(&self, key: &str) -> (r: bool)
        ensures
            r == self.has_key(key@),
    {
        keys_contain(&self.entries, key)
    }

    /// Adds an issue the user commented on today; its key must be new.
    pub fn record_commented(&mut self, issue: Issue)
        requires
            !old(self).has_key(issue.key@),
        ensures
            entry_keys(final(self).entries()).no_duplicates(),
            final(self).entries() == old(self).entries().push((issue, Reason::Commented)),
            final(self).has_key(issue.key@),
    {
        proof {
            use_type_invariant(&*self);
        }
        let ghost k = issue.key@;
        let mut entries: Vec<(Issue, Reason)> = Vec::new();
        std::mem::swap(&mut entries, &mut self.entries);
        let ghost before = entries@;
        entries.push((issue, Reason::Commented));
        assert(entry_keys(entries@) =~= entry_keys(before).push(k));
        assert(entry_keys(entries@).last() == k);
        self.entries = entries;
    }

    /// Takes a candidate issue with its comments: it joins the activity as
    /// commented on when its key is new and a comment of the user was made
    /// today (`issue_has_my_comment_today`). Tells whether it joined.
    pub fn consider_candidate(
        &mut self,
        issue: Issue,
        comments: &Vec<Comment>,
        my_account_id: &str,
        today: CalendarDate,
    ) -> (added: bool)
        ensures
            entry_keys(final(self).entries()).no_duplicates(),
            added ==> final(self).entries() == old(self).entries().push((issue, Reason::Commented)),
            !added ==> final(self).entries() == old(self).entries(),
            old(self).has_key(issue.key@) ==> !added,
            added ==> exists|i: int|
                0 <= i < comments@.len() && authored_by(comments@[i], my_account_id@) && zone_day_of_comment(
                    #[trigger] comments@[i],
                    Some(today),
                ),
            !old(self).has_key(issue.key@) ==> exists|days: Seq<Option<CalendarDate>>|
                days_of_comments(comments@, days) && added == #[trigger] some_comment_on(
                    comments@,
                    days,
                    my_account_id@,
                    today,
                ),
    {
        proof {
            use_type_invariant(&*self);
        }
        if self.is_seen(issue.key.as_str()) {
            return false;
        }
        if issue_has_my_comment_today(comments, my_account_id, today) {
            self.record_commented(issue);
            true
        } else {
            false
        }
    }

    /// Adds the issues the user is assignee or reporter of: each one whose
    /// key is not part of the activity yet and not held by an earlier
    /// issue of the list, in order.
    pub fn add_owned(&mut self, issues: Vec<Issue>)
        ensures
            entry_keys(final(self).entries()).no_duplicates(),
            final(self).entries() == old(self).entries() + with_reason(
                first_new(entry_keys(old(self).entries()), issues@),
                Reason::AssigneeOrReporter,
            ),
            forall|k: Seq<char>| #[trigger] final(self).has_key(k) <==> (old(self).has_key(k)
                || issue_keys(issues@).contains(k)),
    {
        proof {
            use_type_invariant(&*self);
        }
        let mut entries: Vec<(Issue, Reason)> = Vec::new();
        std::mem::swap(&mut entries, &mut self.entries);
        add_first_new(&mut entries, issues);
        self.entries = entries;
    }

    /// The lines shown for the activity, one per issue in order:
    /// `- {key} [{reason}]: {summary}`.
    pub fn lines(&self) -> (lines: Vec<String>)
        ensures
            lines@.len() == self.entries().len(),
            forall|i: int| 0 <= i < self.entries().len() ==> #[trigger] lines@[i]@ == activity_line(
                self.entries()[i],
            ),
    {
        let mut lines: Vec<String> = Vec::new();
        let mut i: usize = 0;
        while i < self.entries.len()
            invariant
                i <= self.entries@.len(),
                lines@.len() == i,
                forall|j: int| 0 <= j < i ==> #[trigger] lines@[j]@ == activity_line(self.entries()[j]),
            decreases self.entries@.len() - i,
        {
            let e = &self.entries[i];
            let mut line = String::from_str("- ");
            line.append(e.0.key.as_str());
            line.append(" [");
            match e.1 {
                Reason::AssigneeOrReporter => line.append("assignee/reporter"),
                Reason::Commented => line.append("commented"),
            }
            line.append("]: ");
            line.append(e.0.fields.summary.as_str());
            lines.push(line);
            i = i + 1;
        }
        lines
    }
}

} // verus!
