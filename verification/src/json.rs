//! The configuration files of the tool are JSON documents: the FTTH nodes
//! (`name -> "host:port"`), the RF nodes (`name -> [number, segment,
//! "host:port"]`) and the default routers. This module reads them from a
//! parsed document.
//!
//! A document is held as a `JsonValue`. Objects keep their members in the
//! order in which the parser handed them over; their keys are distinct.
use vstd::prelude::*;
use crate::text::str_eq;

verus! {

/// A parsed JSON document. Numbers keep their textual form.
#[derive(Debug)]
pub enum JsonValue {
    Null,
    Bool(bool),
    Number(String),
    Str(String),
    Array(Vec<JsonValue>),
    Object(Vec<(String, JsonValue)>),
}

/// Why a document could not be read as a list of named lists.
#[derive(Clone, Copy, Debug, PartialEq, Eq, Structural)]
pub enum JsonShapeError {
    RootNotObject,
}

impl JsonShapeError {
    /// The message that the error is reported with.
    pub fn describe(&self) -> (r: &'static str)
        ensures
            r@ == "JSON root is not an object"@,
    {
        "JSON root is not an object"
    }
}

/// The character sequences of a list of strings.
pub open spec fn string_views(v: Seq<String>) -> Seq<Seq<char>> {
    v.map_values(|s: String| s@)
}

/// The character sequences of a list of string pairs.
pub open spec fn pair_views(v: Seq<(String, String)>) -> Seq<(Seq<char>, Seq<char>)> {
    v.map_values(|p: (String, String)| (p.0@, p.1@))
}

/// The strings among `items`, in order; other values are skipped
/// (`filter_map(as_str)`).
pub open spec fn strings_in(items: Seq<JsonValue>) -> Seq<Seq<char>>
    decreases items.len(),
{
    if items.len() == 0 {
        Seq::empty()
    } else {
        let rest = strings_in(items.drop_last());
        match items.last() {
            JsonValue::Str(s) => rest.push(s@),
            _ => rest,
        }
    }
}

/// The strings of an array value; any other value has none.
pub open spec fn array_strings(v: JsonValue) -> Seq<Seq<char>> {
    match v {
        JsonValue::Array(items) => strings_in(items@),
        _ => Seq::empty(),
    }
}

/// The members of an object whose value is a string, in order, as
/// `(key, string)` pairs.
pub open spec fn string_members(es: Seq<(String, JsonValue)>) -> Seq<(Seq<char>, Seq<char>)>
    decreases es.len(),
{
    if es.len() == 0 {
        Seq::empty()
    } else {
        let rest = string_members(es.drop_last());
        match es.last().1 {
            JsonValue::Str(s) => rest.push((es.last().0@, s@)),
            _ => rest,
        }
    }
}

/// The string held under `key` among the members `es` (the last member with
/// that key), or the empty string when there is none or it is not a string.
pub open spec fn member_string(es: Seq<(String, JsonValue)>, key: Seq<char>) -> Seq<char>
    decreases es.len(),
{
    if es.len() == 0 {
        Seq::empty()
    } else if es.last().0@ == key {
        match es.last().1 {
            JsonValue::Str(s) => s@,
            _ => Seq::empty(),
        }
    } else {
        member_string(es.drop_last(), key)
    }
}

/// `value[key].as_str().unwrap_or_default()`: indexing anything but an
/// object gives `null`, which is no string.
pub open spec fn field_string(v: JsonValue, key: Seq<char>) -> Seq<char> {
    match v {
        JsonValue::Object(es) => member_string(es@, key),
        _ => Seq::empty(),
    }
}

/// The members of `v` whose value is a string, when `v` is an object.
pub open spec fn object_string_members(v: JsonValue) -> Seq<(Seq<char>, Seq<char>)> {
    match v {
        JsonValue::Object(es) => string_members(es@),
        _ => Seq::empty(),
    }
}

/// The `(name, string)` members of a JSON object whose value is a string,
/// in the object's order; members of any other kind are left out, and a
/// document that is no object gives none.
pub fn json_file_to_hash_string(json: &JsonValue) -> (r: Vec<(String, String)>)
    ensures
        pair_views(r@) == object_string_members(*json),
{
    let mut r: Vec<(String, String)> = Vec::new();
    match json {
        JsonValue::Object(es) => {
            let n = es.len();
            let mut i: usize = 0;
            assert(es@.take(0) =~= Seq::<(String, JsonValue)>::empty());
            assert(pair_views(r@) =~= Seq::<(Seq<char>, Seq<char>)>::empty());
            while i < n
                invariant
                    n == es@.len(),
                    0 <= i <= n,
                    pair_views(r@) == string_members(es@.take(i as int)),
                decreases n - i,
            {
                let e = &es[i];
                assert(es@.take(i + 1).drop_last() =~= es@.take(i as int));
                assert(es@.take(i + 1).last() == es@[i as int]);
                match &e.1 {
                    JsonValue::Str(s) => {
                        let ghost before = r@;
                        r.push((e.0.clone(), s.clone()));
                        assert(pair_views(r@) =~= pair_views(before).push((e.0@, s@)));
                    },
                    _ => {},
                }
                i = i + 1;
            }
            assert(es@.take(n as int) =~= es@);
        },
        _ => {},
    }
    r
}

/// The strings of an array value, in order; any other value gives none.
fn array_strings_exec(v: &JsonValue) -> (r: Vec<String>)
    ensures
        string_views(r@) == array_strings(*v),
{
    let mut r: Vec<String> = Vec::new();
    match v {
        JsonValue::Array(items) => {
            let n = items.len();
            let mut i: usize = 0;
            assert(items@.take(0) =~= Seq::<JsonValue>::empty());
            assert(string_views(r@) =~= Seq::<Seq<char>>::empty());
            while i < n
                invariant
                    n == items@.len(),
                    0 <= i <= n,
                    string_views(r@) == strings_in(items@.take(i as int)),
                decreases n - i,
            {
                assert(items@.take(i + 1).drop_last() =~= items@.take(i as int));
                assert(items@.take(i + 1).last() == items@[i as int]);
                match &items[i] {
                    JsonValue::Str(s) => {
                        let ghost before = r@;
                        r.push(s.clone());
                        assert(string_views(r@) =~= string_views(before).push(s@));
                    },
                    _ => {},
                }
                i = i + 1;
            }
            assert(items@.take(n as int) =~= items@);
        },
        _ => {},
    }
    r
}

/// Reads an object of named lists: each member becomes its name with the
/// strings of its array (a member that is no array gives an empty list),
/// in the object's order. A document that is no object is refused.
pub fn read_json_file_to_vec(json: &JsonValue) -> (r: Result<Vec<(String, Vec<String>)>, JsonShapeError>)
    ensures
        r is Ok <==> json is Object,
        r matches Ok(v) ==> ({
            let es = json->Object_0@;
            &&& v@.len() == es.len()
            &&& forall|i: int|
                0 <= i < es.len() ==> (#[trigger] v@[i]).0@ == es[i].0@ && string_views(v@[i].1@)
                    == array_strings(es[i].1)
        }),
{
    match json {
        JsonValue::Object(es) => {
            let n = es.len();
            let mut v: Vec<(String, Vec<String>)> = Vec::new();
            let mut i: usize = 0;
            while i < n
                invariant
                    n == es@.len(),
                    0 <= i <= n,
                    v@.len() == i,
                    forall|j: int|
                        0 <= j < i ==> (#[trigger] v@[j]).0@ == es@[j].0@ && string_views(v@[j].1@)
                            == array_strings(es@[j].1),
                decreases n - i,
            {
                let e = &es[i];
                let items = array_strings_exec(&e.1);
                v.push((e.0.clone(), items));
                i = i + 1;
            }
            Ok(v)
        },
        _ => Err(JsonShapeError::RootNotObject),
    }
}

/// `value[key].as_str().unwrap_or_default()`.
fn field_string_exec(v: &JsonValue, key: &str) -> (r: String)
    ensures
        r@ == field_string(*v, key@),
{
    let mut r = String::new();
    match v {
        JsonValue::Object(es) => {
            let n = es.len();
            let mut i: usize = 0;
            proof {
                reveal_strlit("");
            }
            while i < n
                invariant
                    n == es@.len(),
                    0 <= i <= n,
                    r@ == member_string(es@.take(i as int), key@),
                decreases n - i,
            {
                let e = &es[i];
                assert(es@.take(i + 1).drop_last() =~= es@.take(i as int));
                assert(es@.take(i + 1).last() == es@[i as int]);
                if str_eq(e.0.as_str(), key) {
                    r = match &e.1 {
                        JsonValue::Str(s) => s.clone(),
                        _ => String::new(),
                    };
                }
                i = i + 1;
            }
            assert(es@.take(n as int) =~= es@);
        },
        _ => {},
    }
    r
}

/// The default router for a purpose, read from the default configuration:
/// `"login"` gives `default_ro_test_login`, `"segment"` gives
/// `default_ro_search_segments`, anything else the empty string. A member
/// that is missing or not a string reads as the empty string.
pub fn check_default_ro_to(config: &JsonValue, login_or_segment: &str) -> (r: String)
    ensures
        r@ == (if login_or_segment@ == "login"@ {
            field_string(*config, "default_ro_test_login"@)
        } else if login_or_segment@ == "segment"@ {
            field_string(*config, "default_ro_search_segments"@)
        } else {
            Seq::empty()
        }),
{
    let login = field_string_exec(config, "default_ro_test_login");
    let segments = field_string_exec(config, "default_ro_search_segments");
    if str_eq(login_or_segment, "login") {
        return login;
    } else if str_eq(login_or_segment, "segment") {
        return segments;
    }
    let empty = String::new();
    proof {
        reveal_strlit("");
    }
    empty
}

} // verus!
