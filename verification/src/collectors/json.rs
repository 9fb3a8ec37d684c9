//! A JSON document as the collectors read it. Decoding the text into this
//! shape is the caller's job; here live the field lookups the response
//! decoders are written with.

use vstd::prelude::*;

use crate::text::{i64_text, parse_i64, str_eq, trim, trimmed};

verus! {

/// A decoded JSON value. A number keeps its decimal text as the decoder
/// prints it (an integer as bare digits, any other number with a fraction or
/// an exponent), so no value is rounded on the way through. Object members
/// keep the order the decoder lists them in.
#[derive(Debug)]
pub enum Json {
    Null,
    Bool(bool),
    Number(String),
    Str(String),
    Array(Vec<Json>),
    Object(Vec<Member>),
}

/// One `"key": value` pair of an object.
#[derive(Debug)]
pub struct Member {
    pub key: String,
    pub value: Json,
}

/// The position of the first member named `key`, if any.
pub open spec fn member_index(members: Seq<Member>, key: Seq<char>) -> Option<int>
    decreases members.len(),
{
    if members.len() == 0 {
        None
    } else if members[0].key@ == key {
        Some(0)
    } else {
        match member_index(members.drop_first(), key) {
            Some(i) => Some(i + 1),
            None => None,
        }
    }
}

proof fn lemma_member_index(members: Seq<Member>, key: Seq<char>)
    ensures
        match member_index(members, key) {
            Some(i) => 0 <= i < members.len() && members[i].key@ == key && forall|j: int|
                0 <= j < i ==> members[j].key@ != key,
            None => forall|j: int| 0 <= j < members.len() ==> members[j].key@ != key,
        },
    decreases members.len(),
{
    if members.len() > 0 {
        lemma_member_index(members.drop_first(), key);
        if members[0].key@ != key {
            assert forall|j: int| 1 <= j < members.len() implies members[j] == members.drop_first()[j - 1] by {}
        }
    }
}

/// `v[key]`: the member's value when `v` is an object holding `key`.
pub open spec fn json_field(v: Json, key: Seq<char>) -> Option<Json> {
    match v {
        Json::Object(members) => match member_index(members@, key) {
            Some(i) => Some(members@[i].value),
            None => None,
        },
        _ => None,
    }
}

/// `v[i]`: the element when `v` is an array long enough.
pub open spec fn json_item(v: Json, i: int) -> Option<Json> {
    match v {
        Json::Array(items) => if 0 <= i < items@.len() {
            Some(items@[i])
        } else {
            None
        },
        _ => None,
    }
}

/// `v[key]` when there is a `v`.
pub open spec fn at_key(v: Option<Json>, key: Seq<char>) -> Option<Json> {
    match v {
        Some(j) => json_field(j, key),
        None => None,
    }
}

/// `v[i]` when there is a `v`.
pub open spec fn at_index(v: Option<Json>, i: int) -> Option<Json> {
    match v {
        Some(j) => json_item(j, i),
        None => None,
    }
}

/// The text of a string value.
pub open spec fn json_str(v: Option<Json>) -> Option<Seq<char>> {
    match v {
        Some(Json::Str(s)) => Some(s@),
        _ => None,
    }
}

/// The value of a number written as an integer that fits in `i64`.
pub open spec fn json_i64(v: Option<Json>) -> Option<i64> {
    match v {
        Some(Json::Number(n)) => i64_text(n@),
        _ => None,
    }
}

/// The decimal text of a number.
pub open spec fn json_number(v: Option<Json>) -> Option<Seq<char>> {
    match v {
        Some(Json::Number(n)) => Some(n@),
        _ => None,
    }
}

/// A string value that is not empty.
pub open spec fn json_nonempty(v: Option<Json>) -> Option<Seq<char>> {
    match json_str(v) {
        Some(s) => if s.len() > 0 {
            Some(s)
        } else {
            None
        },
        None => None,
    }
}

/// A count given either as an integer number or as a string holding one
/// (surrounding whitespace ignored).
pub open spec fn json_count(v: Option<Json>) -> Option<i64> {
    match json_i64(v) {
        Some(n) => Some(n),
        None => match json_str(v) {
            Some(s) => i64_text(trimmed(s)),
            None => None,
        },
    }
}

/// The plain value behind an optional reference.
pub open spec fn deref_opt(v: Option<&Json>) -> Option<Json> {
    match v {
        Some(j) => Some(*j),
        None => None,
    }
}

/// `v[key]`, looked up among the object's members.
pub fn field<'a>(v: Option<&'a Json>, key: &str) -> (r: Option<&'a Json>)
    ensures
        deref_opt(r) == at_key(deref_opt(v), key@),
        match v {
            Some(j) => match r {
                Some(x) => json_field(*j, key@) == Some(*x),
                None => json_field(*j, key@) is None,
            },
            None => r is None,
        },
{
    match v {
        Some(Json::Object(members)) => {
            let mut i: usize = 0;
            while i < members.len()
                invariant
                    v matches Some(jj) && *jj == Json::Object(*members),
                    i <= members@.len(),
                    forall|j: int| 0 <= j < i ==> members@[j].key@ != key@,
                decreases members.len() - i,
            {
                if str_eq(members[i].key.as_str(), key) {
                    proof {
                        lemma_member_index(members@, key@);
                        let k = member_index(members@, key@)->0;
                        assert(members@[i as int].key@ == key@);
                        assert(k == i as int) by {
                            if k < i {
                                assert(members@[k].key@ != key@);
                            }
                        }
                    }
                    return Some(&members[i].value);
                }
                i = i + 1;
            }
            proof {
                lemma_member_index(members@, key@);
            }
            None
        },
        _ => None,
    }
}

/// `v[i]`, the array element.
pub fn item<'a>(v: Option<&'a Json>, i: usize) -> (r: Option<&'a Json>)
    ensures
        deref_opt(r) == at_index(deref_opt(v), i as int),
        match v {
            Some(j) => match r {
                Some(x) => json_item(*j, i as int) == Some(*x),
                None => json_item(*j, i as int) is None,
            },
            None => r is None,
        },
{
    match v {
        Some(Json::Array(items)) => {
            if i < items.len() {
                Some(&items[i])
            } else {
                None
            }
        },
        _ => None,
    }
}

/// The text of a string value.
pub fn as_str<'a>(v: Option<&'a Json>) -> (r: Option<&'a str>)
    ensures
        match r {
            Some(s) => json_str(deref_opt(v)) == Some(s@),
            None => json_str(deref_opt(v)) is None,
        },
{
    match v {
        Some(Json::Str(s)) => Some(s.as_str()),
        _ => None,
    }
}

/// The value of a number written as an integer that fits in `i64`.
pub fn as_i64(v: Option<&Json>) -> (r: Option<i64>)
    ensures
        r == json_i64(deref_opt(v)),
{
    match v {
        Some(Json::Number(n)) => parse_i64(n.as_str()),
        _ => None,
    }
}

/// A string value as an owned `String`, or `None` when the value is absent,
/// not a string, or empty.
pub fn nonempty(v: Option<&Json>) -> (r: Option<String>)
    ensures
        match r {
            Some(s) => json_nonempty(deref_opt(v)) == Some(s@),
            None => json_nonempty(deref_opt(v)) is None,
        },
{
    match v {
        Some(Json::Str(s)) => {
            if s.unicode_len() > 0 {
                Some(s.clone())
            } else {
                None
            }
        },
        _ => None,
    }
}

/// An employee count that sources report as either a JSON number or a string.
pub fn employee_count(v: Option<&Json>) -> (r: Option<i64>)
    ensures
        r == json_count(deref_opt(v)),
{
    match as_i64(v) {
        Some(n) => Some(n),
        None => match v {
            Some(Json::Str(s)) => parse_i64(trim(s.as_str())),
            _ => None,
        },
    }
}

} // verus!
