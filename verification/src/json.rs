//! A JSON document as plain values, and lookups along paths of keys.
use vstd::prelude::*;
use crate::text::text_eq;

verus! {

/// A JSON value. Numbers keep the text they were written with; an object
/// keeps its members in order, each key once.
#[derive(Debug)]
pub enum JsonValue {
    Null,
    Bool(bool),
    Number(String),
    String(String),
    Array(Vec<JsonValue>),
    Object(Vec<(String, JsonValue)>),
}

/// The value of the first member named `key`.
pub open spec fn entry_lookup(entries: Seq<(String, JsonValue)>, key: Seq<char>) -> Option<JsonValue>
    decreases entries.len(),
{
    if entries.len() == 0 {
        None
    } else if entries[0].0@ == key {
        Some(entries[0].1)
    } else {
        entry_lookup(entries.drop_first(), key)
    }
}

/// The member `key` of an object (`Value::get` with a key); nothing for
/// any other value.
pub open spec fn member(v: JsonValue, key: Seq<char>) -> Option<JsonValue> {
    match v {
        JsonValue::Object(entries) => entry_lookup(entries@, key),
        _ => None,
    }
}

/// The value reached by following a path of keys, one member at a time.
pub open spec fn at_path(v: JsonValue, path: Seq<Seq<char>>) -> Option<JsonValue>
    decreases path.len(),
{
    if path.len() == 0 {
        Some(v)
    } else {
        match member(v, path[0]) {
            Some(c) => at_path(c, path.drop_first()),
            None => None,
        }
    }
}

/// The first key of a path that is not found on the way, if any.
pub open spec fn missing_along(v: JsonValue, path: Seq<Seq<char>>) -> Option<Seq<char>>
    decreases path.len(),
{
    if path.len() == 0 {
        None
    } else {
        match member(v, path[0]) {
            Some(c) => missing_along(c, path.drop_first()),
            None => Some(path[0]),
        }
    }
}

/// A path can be followed exactly when no key of it is missing.
pub proof fn lemma_missing_along(v: JsonValue, path: Seq<Seq<char>>)
    ensures
        (missing_along(v, path) is None) == (at_path(v, path) is Some),
    decreases path.len(),
{
    if path.len() > 0 {
        if let Some(c) = member(v, path[0]) {
            lemma_missing_along(c, path.drop_first());
        }
    }
}

/// The texts of a path of keys.
pub open spec fn key_path(keys: Seq<&str>) -> Seq<Seq<char>> {
    keys.map_values(|k: &str| k@)
}

/// The member `key` of an object, if there is one.
pub fn member_of<'a>(v: &'a JsonValue, key: &str) -> (r: Option<&'a JsonValue>)
    ensures
        match r {
            Some(c) => member(*v, key@) == Some(*c),
            None => member(*v, key@) is None,
        },
{
    match v {
        JsonValue::Object(entries) => {
            let mut i: usize = 0;
            assert(entries@.skip(0) =~= entries@);
            while i < entries.len()
                invariant
                    i <= entries@.len(),
                    member(*v, key@) == entry_lookup(entries@, key@),
                    entry_lookup(entries@, key@) == entry_lookup(entries@.skip(i as int), key@),
                decreases entries@.len() - i,
            {
                assert(entries@.skip(i as int)[0] == entries@[i as int]);
                assert(entries@.skip(i as int).drop_first() =~= entries@.skip(i + 1));
                if text_eq(entries[i].0.as_str(), key) {
                    let found = &entries[i];
                    assert(*found == entries@[i as int]);
                    assert(entry_lookup(entries@.skip(i as int), key@) == Some(found.1));
                    return Some(&found.1);
                }
                i = i + 1;
            }
            None
        },
        _ => None,
    }
}

/// The first key of a path that is not found, as a `String`.
pub fn missing_key(v: &JsonValue, keys: &[&str]) -> (r: Option<String>)
    ensures
        match r {
            Some(k) => missing_along(*v, key_path(keys@)) == Some(k@),
            None => missing_along(*v, key_path(keys@)) is None,
        },
{
    let ghost path = key_path(keys@);
    let mut current = v;
    let mut i: usize = 0;
    assert(path.skip(0) =~= path);
    while i < keys.len()
        invariant
            i <= keys@.len(),
            path == key_path(keys@),
            missing_along(*v, path) == missing_along(*current, path.skip(i as int)),
        decreases keys@.len() - i,
    {
        assert(path.skip(i as int)[0] == keys@[i as int]@);
        assert(path.skip(i as int).drop_first() =~= path.skip(i + 1));
        match member_of(current, keys[i]) {
            Some(c) => {
                current = c;
            },
            None => {
                return Some(String::from_str(keys[i]));
            },
        }
        i = i + 1;
    }
    None
}

/// The value at the end of a path that can be followed.
pub fn value_at<'a>(v: &'a JsonValue, keys: &[&str]) -> (r: &'a JsonValue)
    requires
        at_path(*v, key_path(keys@)) is Some,
    ensures
        at_path(*v, key_path(keys@)) == Some(*r),
{
    let ghost path = key_path(keys@);
    let mut current = v;
    let mut i: usize = 0;
    assert(path.skip(0) =~= path);
    while i < keys.len()
        invariant
            i <= keys@.len(),
            path == key_path(keys@),
            at_path(*v, path) == at_path(*current, path.skip(i as int)),
            at_path(*v, path) is Some,
        decreases keys@.len() - i,
    {
        assert(path.skip(i as int)[0] == keys@[i as int]@);
        assert(path.skip(i as int).drop_first() =~= path.skip(i + 1));
        match member_of(current, keys[i]) {
            Some(c) => {
                current = c;
            },
            None => {
                return current;
            },
        }
        i = i + 1;
    }
    current
}

} // verus!
