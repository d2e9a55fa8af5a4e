//! Settings of the daily activity report, taken from environment variables.
use vstd::prelude::*;
use crate::text::{joined, trim_end, trim_start, push_char, text_eq, trim, trimmed, unicode_white_space, lemma_trimmed_edges, lemma_trimmed_within};
use crate::listing::lemma_filter_member;

verus! {

/// Pieces of a text between occurrences of a separator (`str::split` with a
/// character): `n` separators give `n + 1` pieces, empty ones included.
pub open spec fn split_on(s: Seq<char>, sep: char) -> Seq<Seq<char>>
    decreases s.len(),
{
    if s.len() == 0 {
        seq![Seq::empty()]
    } else {
        let rest = split_on(s.drop_last(), sep);
        if s.last() == sep {
            rest.push(Seq::empty())
        } else {
            rest.update(rest.len() - 1, rest.last().push(s.last()))
        }
    }
}

/// Splitting always yields at least one piece.
pub proof fn lemma_split_on_nonempty(s: Seq<char>, sep: char)
    ensures
        split_on(s, sep).len() >= 1,
    decreases s.len(),
{
    if s.len() > 0 {
        lemma_split_on_nonempty(s.drop_last(), sep);
    }
}

/// Texts of a list of strings.
pub open spec fn texts(v: Seq<String>) -> Seq<Seq<char>> {
    v.map_values(|k: String| k@)
}

/// Whether a text holds at least one character.
pub open spec fn is_nonempty(k: Seq<char>) -> bool {
    k.len() > 0
}

/// The project keys named by a comma-separated list: each piece trimmed,
/// empty pieces left out, the order kept.
pub open spec fn project_keys(value: Seq<char>) -> Seq<Seq<char>> {
    split_on(value, ',').map_values(|p: Seq<char>| trimmed(p)).filter(|k: Seq<char>| is_nonempty(k))
}

proof fn lemma_keys_push(a: Seq<Seq<char>>, x: Seq<char>)
    ensures
        a.push(x).map_values(|p: Seq<char>| trimmed(p)).filter(|k: Seq<char>| is_nonempty(k))
            == a.map_values(|p: Seq<char>| trimmed(p)).filter(|k: Seq<char>| is_nonempty(k))
            + (if is_nonempty(trimmed(x)) { seq![trimmed(x)] } else { Seq::empty() }),
{
    let f = |p: Seq<char>| trimmed(p);
    let q = |k: Seq<char>| is_nonempty(k);
    assert(a.push(x).map_values(f) =~= a.map_values(f) + seq![trimmed(x)]);
    Seq::filter_distributes_over_add(a.map_values(f), seq![trimmed(x)], q);
    reveal_with_fuel(Seq::filter, 2);
    assert(seq![trimmed(x)].drop_last() =~= Seq::<Seq<char>>::empty());
    if is_nonempty(trimmed(x)) {
        assert(seq![trimmed(x)].filter(q) =~= seq![trimmed(x)]);
    } else {
        assert(seq![trimmed(x)].filter(q) =~= Seq::<Seq<char>>::empty());
    }
}

/// No piece of a split holds the separator.
pub proof fn lemma_split_pieces_lack_separator(s: Seq<char>, sep: char)
    ensures
        forall|i: int, j: int|
            0 <= i < split_on(s, sep).len() && 0 <= j < split_on(s, sep)[i].len() ==> #[trigger] split_on(
                s,
                sep,
            )[i][j] != sep,
    decreases s.len(),
{
    lemma_split_on_nonempty(s, sep);
    if s.len() > 0 {
        lemma_split_pieces_lack_separator(s.drop_last(), sep);
        lemma_split_on_nonempty(s.drop_last(), sep);
        let rest = split_on(s.drop_last(), sep);
        assert forall|i: int, j: int|
            0 <= i < split_on(s, sep).len() && 0 <= j < split_on(s, sep)[i].len() implies #[trigger] split_on(
            s,
            sep,
        )[i][j] != sep by {
            if s.last() != sep && i == rest.len() - 1 {
                if j < rest.last().len() {
                    assert(split_on(s, sep)[i][j] == rest[i][j]);
                }
            } else if i < rest.len() {
                assert(split_on(s, sep)[i] == rest[i]);
            }
        }
    }
}

/// Every project key holds at least one character, neither starts nor
/// ends with white space, and holds no comma.
pub proof fn lemma_project_keys_are_clean(value: Seq<char>)
    ensures
        forall|i: int| 0 <= i < project_keys(value).len() ==> {
            let k = #[trigger] project_keys(value)[i];
            &&& k.len() > 0
            &&& !unicode_white_space(k[0])
            &&& !unicode_white_space(k.last())
            &&& !k.contains(',')
        },
{
    let pieces = split_on(value, ',');
    let f = |p: Seq<char>| trimmed(p);
    let q = |k: Seq<char>| is_nonempty(k);
    let mapped = pieces.map_values(f);
    lemma_split_pieces_lack_separator(value, ',');
    assert forall|i: int| 0 <= i < project_keys(value).len() implies {
        let k = #[trigger] project_keys(value)[i];
        &&& k.len() > 0
        &&& !unicode_white_space(k[0])
        &&& !unicode_white_space(k.last())
        &&& !k.contains(',')
    } by {
        lemma_filter_member(mapped, q, i);
        let k = project_keys(value)[i];
        let j = choose|j: int| 0 <= j < mapped.len() && mapped[j] == k;
        let p = pieces[j];
        assert(k == trimmed(p));
        lemma_trimmed_edges(p);
        lemma_trimmed_within(p);
        let (a, b) = choose|a: int, b: int| 0 <= a <= b <= p.len() && trimmed(p) == p.subrange(a, b);
        if k.contains(',') {
            let m = choose|m: int| 0 <= m < k.len() && k[m] == ',';
            assert(k[m] == p[a + m]);
            assert(pieces[j][a + m] != ',');
        }
    }
}

/// A project key as a list can carry it: at least one character, no white
/// space at either end, no comma.
pub open spec fn is_clean_key(k: Seq<char>) -> bool {
    &&& k.len() > 0
    &&& !unicode_white_space(k[0])
    &&& !unicode_white_space(k.last())
    &&& !k.contains(',')
}

proof fn lemma_split_without_separator(s: Seq<char>, sep: char)
    requires
        !s.contains(sep),
    ensures
        split_on(s, sep) == seq![s],
    decreases s.len(),
{
    if s.len() > 0 {
        assert(s[s.len() - 1] == s.last());
        assert(!s.drop_last().contains(sep)) by {
            if s.drop_last().contains(sep) {
                let i = choose|i: int| 0 <= i < s.drop_last().len() && s.drop_last()[i] == sep;
                assert(s[i] == sep);
            }
        }
        lemma_split_without_separator(s.drop_last(), sep);
        assert(s.drop_last().push(s.last()) =~= s);
        assert(split_on(s, sep) =~= seq![s]);
    } else {
        assert(s =~= Seq::<char>::empty());
    }
}

proof fn lemma_split_append(a: Seq<char>, b: Seq<char>, sep: char)
    requires
        !b.contains(sep),
    ensures
        split_on(a + b, sep) == split_on(a, sep).update(
            split_on(a, sep).len() - 1,
            split_on(a, sep).last() + b,
        ),
    decreases b.len(),
{
    lemma_split_on_nonempty(a, sep);
    let sa = split_on(a, sep);
    if b.len() == 0 {
        assert(a + b =~= a);
        assert(sa.last() + b =~= sa.last());
        assert(sa.update(sa.len() - 1, sa.last() + b) =~= sa);
    } else {
        let bd = b.drop_last();
        assert(b[b.len() - 1] == b.last());
        assert(!bd.contains(sep)) by {
            if bd.contains(sep) {
                let i = choose|i: int| 0 <= i < bd.len() && bd[i] == sep;
                assert(b[i] == sep);
            }
        }
        lemma_split_append(a, bd, sep);
        assert((a + b).drop_last() =~= a + bd);
        assert((a + b).last() == b.last());
        let r = split_on(a + bd, sep);
        assert((sa.last() + bd).push(b.last()) =~= sa.last() + b);
        assert(r.update(r.len() - 1, r.last().push(b.last())) =~= sa.update(sa.len() - 1, sa.last() + b));
    }
}

proof fn lemma_split_joined(keys: Seq<Seq<char>>)
    requires
        keys.len() >= 1,
        forall|i: int| 0 <= i < keys.len() ==> !(#[trigger] keys[i]).contains(','),
    ensures
        split_on(joined(keys, seq![',']), ',') == keys,
    decreases keys.len(),
{
    if keys.len() == 1 {
        lemma_split_without_separator(keys[0], ',');
        assert(keys =~= seq![keys[0]]);
    } else {
        let front = keys.drop_last();
        assert forall|i: int| 0 <= i < front.len() implies !(#[trigger] front[i]).contains(',') by {
            assert(front[i] == keys[i]);
        }
        lemma_split_joined(front);
        let jf = joined(front, seq![',']);
        assert(joined(keys, seq![',']) =~= jf.push(',') + keys.last());
        assert(keys[keys.len() - 1] == keys.last());
        lemma_split_append(jf.push(','), keys.last(), ',');
        assert(jf.push(',').drop_last() =~= jf);
        let p = split_on(jf.push(','), ',');
        assert(p == front.push(Seq::empty()));
        assert(Seq::<char>::empty() + keys.last() =~= keys.last());
        assert(p.update(p.len() - 1, p.last() + keys.last()) =~= keys);
    }
}

proof fn lemma_filter_keeps_all<A>(s: Seq<A>, pred: spec_fn(A) -> bool)
    requires
        forall|i: int| 0 <= i < s.len() ==> pred(#[trigger] s[i]),
    ensures
        s.filter(pred) == s,
    decreases s.len(),
{
    reveal(Seq::filter);
    if s.len() > 0 {
        assert forall|i: int| 0 <= i < s.drop_last().len() implies pred(#[trigger] s.drop_last()[i]) by {
            assert(s.drop_last()[i] == s[i]);
        }
        lemma_filter_keeps_all(s.drop_last(), pred);
        assert(s[s.len() - 1] == s.last());
        assert(s.drop_last().push(s.last()) =~= s);
    }
}

/// Joining clean keys with commas and reading the list back gives the same
/// keys, in the same order.
pub proof fn lemma_project_keys_of_joined(keys: Seq<Seq<char>>)
    requires
        forall|i: int| 0 <= i < keys.len() ==> is_clean_key(#[trigger] keys[i]),
    ensures
        project_keys(joined(keys, ","@)) == keys,
{
    reveal_strlit(",");
    assert(","@ =~= seq![',']);
    let f = |p: Seq<char>| trimmed(p);
    let q = |k: Seq<char>| is_nonempty(k);
    if keys.len() == 0 {
        assert(joined(keys, ","@) =~= Seq::<char>::empty());
        assert(split_on(joined(keys, ","@), ',') == seq![Seq::<char>::empty()]);
        assert(split_on(joined(keys, ","@), ',').map_values(f) =~= seq![trimmed(Seq::<char>::empty())]);
        reveal_with_fuel(Seq::filter, 2);
        assert(seq![trimmed(Seq::<char>::empty())].drop_last() =~= Seq::<Seq<char>>::empty());
        assert(project_keys(joined(keys, ","@)) =~= keys);
    } else {
        assert forall|i: int| 0 <= i < keys.len() implies !(#[trigger] keys[i]).contains(',') by {
            assert(is_clean_key(keys[i]));
        }
        lemma_split_joined(keys);
        assert forall|i: int| 0 <= i < keys.len() implies trimmed(#[trigger] keys[i]) == keys[i] by {
            let k = keys[i];
            assert(is_clean_key(k));
            assert(trim_start(k) == k);
            assert(trim_end(k) == k);
        }
        assert(keys.map_values(f) =~= keys);
        assert forall|i: int| 0 <= i < keys.len() implies q(#[trigger] keys[i]) by {
            assert(is_clean_key(keys[i]));
        }
        lemma_filter_keeps_all(keys, q);
    }
}

/// Reading a list, joining its keys with commas and reading that again
/// gives the keys of the first reading.
pub proof fn lemma_project_keys_rejoined(value: Seq<char>)
    ensures
        project_keys(joined(project_keys(value), ","@)) == project_keys(value),
{
    lemma_project_keys_are_clean(value);
    let keys = project_keys(value);
    assert forall|i: int| 0 <= i < keys.len() implies is_clean_key(#[trigger] keys[i]) by {
        let k = keys[i];
        assert(k == project_keys(value)[i]);
    }
    lemma_project_keys_of_joined(keys);
}

/// The keys of a comma-separated list of Jira projects.
pub fn parse_project_keys(value: &str) -> (keys: Vec<String>)
    ensures
        texts(keys@) == project_keys(value@),
{
    let n = value.unicode_len();
    let mut keys: Vec<String> = Vec::new();
    let mut current = String::new();
    let mut i: usize = 0;
    assert(value@.take(0) =~= Seq::<char>::empty());
    assert(texts(keys@) =~= Seq::<Seq<char>>::empty());
    assert(split_on(value@.take(0), ',').drop_last() =~= Seq::<Seq<char>>::empty());
    while i < n
        invariant
            n == value@.len(),
            i <= n,
            split_on(value@.take(i as int), ',').len() >= 1,
            current@ == split_on(value@.take(i as int), ',').last(),
            texts(keys@) == split_on(value@.take(i as int), ',').drop_last().map_values(
                |p: Seq<char>| trimmed(p),
            ).filter(|k: Seq<char>| is_nonempty(k)),
        decreases n - i,
    {
        let ghost pieces = split_on(value@.take(i as int), ',');
        let c = value.get_char(i);
        assert(value@.take(i + 1).drop_last() =~= value@.take(i as int));
        assert(value@.take(i + 1).last() == c);
        if c == ',' {
            let t = trim(current.as_str());
            proof {
                assert(pieces =~= pieces.drop_last().push(pieces.last()));
                lemma_keys_push(pieces.drop_last(), pieces.last());
                assert(pieces.push(Seq::empty()).drop_last() =~= pieces);
            }
            if t.as_str().unicode_len() > 0 {
                let ghost before = keys@;
                keys.push(t);
                assert(texts(keys@) =~= texts(before) + seq![t@]);
            } else {
                assert(t@.len() == 0);
            }
            current = String::new();
        } else {
            push_char(&mut current, c);
            proof {
                assert(pieces.update(pieces.len() - 1, pieces.last().push(c)).drop_last()
                    =~= pieces.drop_last());
            }
        }
        i = i + 1;
    }
    let t = trim(current.as_str());
    proof {
        let pieces = split_on(value@.take(n as int), ',');
        assert(value@.take(n as int) =~= value@);
        assert(pieces =~= pieces.drop_last().push(pieces.last()));
        lemma_keys_push(pieces.drop_last(), pieces.last());
    }
    if t.as_str().unicode_len() > 0 {
        let ghost before = keys@;
        keys.push(t);
        assert(texts(keys@) =~= texts(before) + seq![t@]);
    }
    assert(texts(keys@) =~= project_keys(value@));
    keys
}


/// The value of the first entry named `name` in a list of environment
/// variables, if there is one.
pub open spec fn env_lookup(env: Seq<(String, String)>, name: Seq<char>) -> Option<Seq<char>>
    decreases env.len(),
{
    if env.len() == 0 {
        None
    } else if env[0].0@ == name {
        Some(env[0].1@)
    } else {
        env_lookup(env.drop_first(), name)
    }
}

/// Why the settings could not be read.
#[derive(Debug)]
pub enum ConfigError {
    /// The variable of this name is not set (or does not hold Unicode).
    NotSet(String),
}

impl ConfigError {
    /// The text the report shows for this error: `"{var} not set"`.
    pub fn message(&self) -> (m: String)
        ensures
            match self {
                ConfigError::NotSet(var) => m@ == var@ + " not set"@,
            },
    {
        match self {
            ConfigError::NotSet(var) => {
                let mut m = var.clone();
                m.append(" not set");
                m
            },
        }
    }
}

/// The value of the variable `var`, or the error that names it.
pub fn env_var(env: &Vec<(String, String)>, var: &str) -> (r: Result<String, ConfigError>)
    ensures
        match r {
            Ok(value) => env_lookup(env@, var@) == Some(value@),
            Err(ConfigError::NotSet(name)) => env_lookup(env@, var@) is None && name@ == var@,
        },
{
    let mut i: usize = 0;
    assert(env@.skip(0) =~= env@);
    while i < env.len()
        invariant
            i <= env@.len(),
            env_lookup(env@, var@) == env_lookup(env@.skip(i as int), var@),
        decreases env@.len() - i,
    {
        assert(env@.skip(i as int)[0] == env@[i as int]);
        assert(env@.skip(i as int).drop_first() =~= env@.skip(i + 1));
        if text_eq(env[i].0.as_str(), var) {
            return Ok(env[i].1.clone());
        }
        i = i + 1;
    }
    Err(ConfigError::NotSet(String::from_str(var)))
}

/// Settings of the report.
pub struct Config {
    pub jira_base_url: String,
    pub jira_email: String,
    pub jira_token: String,
    pub jira_project_keys: Vec<String>,
    pub github_token: String,
    pub github_username: String,
}

/// The variables the settings are read from, in the order they are read.
pub open spec fn config_var_names() -> Seq<Seq<char>> {
    seq![
        "JIRA_BASE_URL"@,
        "JIRA_EMAIL"@,
        "JIRA_TOKEN"@,
        "JIRA_PROJECT_KEYS"@,
        "GITHUB_TOKEN"@,
        "GITHUB_USERNAME"@,
    ]
}

/// Whether all of the first `k` variables are set.
pub open spec fn first_vars_set(env: Seq<(String, String)>, k: int) -> bool {
    forall|j: int| 0 <= j < k ==> (#[trigger] env_lookup(env, config_var_names()[j])) is Some
}

/// The value of a variable known to be set.
pub open spec fn env_value(env: Seq<(String, String)>, name: Seq<char>) -> Seq<char> {
    env_lookup(env, name).unwrap()
}

impl Config {
    /// Reads the settings from a list of environment variables (name,
    /// value). Every variable must be set; the error names the first of
    /// them, in reading order, that is not. The project keys are the
    /// comma-separated list in `JIRA_PROJECT_KEYS`.
    pub fn from_env(env: &Vec<(String, String)>) -> (r: Result<Config, ConfigError>)
        ensures
            r is Ok <==> first_vars_set(env@, 6),
            match r {
                Ok(c) => {
                    &&& c.jira_base_url@ == env_value(env@, "JIRA_BASE_URL"@)
                    &&& c.jira_email@ == env_value(env@, "JIRA_EMAIL"@)
                    &&& c.jira_token@ == env_value(env@, "JIRA_TOKEN"@)
                    &&& texts(c.jira_project_keys@) == project_keys(
                        env_value(env@, "JIRA_PROJECT_KEYS"@),
                    )
                    &&& c.github_token@ == env_value(env@, "GITHUB_TOKEN"@)
                    &&& c.github_username@ == env_value(env@, "GITHUB_USERNAME"@)
                },
                Err(ConfigError::NotSet(name)) => exists|k: int|
                    0 <= k < 6 && first_vars_set(env@, k) && name@ == config_var_names()[k]
                        && env_lookup(env@, config_var_names()[k]) is None,
            },
    {
        let ghost names = config_var_names();
        let jira_base_url = match env_var(env, "JIRA_BASE_URL") {
            Ok(v) => v,
            Err(e) => {
                assert(names[0] == "JIRA_BASE_URL"@);
                return Err(e);
            },
        };
        assert(first_vars_set(env@, 1)) by {
            assert(names[0] == "JIRA_BASE_URL"@);
        }
        let jira_email = match env_var(env, "JIRA_EMAIL") {
            Ok(v) => v,
            Err(e) => {
                assert(names[1] == "JIRA_EMAIL"@);
                return Err(e);
            },
        };
        assert(first_vars_set(env@, 2)) by {
            assert(names[1] == "JIRA_EMAIL"@);
        }
        let jira_token = match env_var(env, "JIRA_TOKEN") {
            Ok(v) => v,
            Err(e) => {
                assert(names[2] == "JIRA_TOKEN"@);
                return Err(e);
            },
        };
        assert(first_vars_set(env@, 3)) by {
            assert(names[2] == "JIRA_TOKEN"@);
        }
        let project_list = match env_var(env, "JIRA_PROJECT_KEYS") {
            Ok(v) => v,
            Err(e) => {
                assert(names[3] == "JIRA_PROJECT_KEYS"@);
                return Err(e);
            },
        };
        assert(first_vars_set(env@, 4)) by {
            assert(names[3] == "JIRA_PROJECT_KEYS"@);
        }
        let jira_project_keys = parse_project_keys(project_list.as_str());
        let github_token = match env_var(env, "GITHUB_TOKEN") {
            Ok(v) => v,
            Err(e) => {
                assert(names[4] == "GITHUB_TOKEN"@);
                return Err(e);
            },
        };
        assert(first_vars_set(env@, 5)) by {
            assert(names[4] == "GITHUB_TOKEN"@);
        }
        let github_username = match env_var(env, "GITHUB_USERNAME") {
            Ok(v) => v,
            Err(e) => {
                assert(names[5] == "GITHUB_USERNAME"@);
                return Err(e);
            },
        };
        assert(first_vars_set(env@, 6)) by {
            assert(names[5] == "GITHUB_USERNAME"@);
        }
        Ok(Config {
            jira_base_url,
            jira_email,
            jira_token,
            jira_project_keys,
            github_token,
            github_username,
        })
    }
}

} // verus!
