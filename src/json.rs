//! A JSON document tree, as handed to the converters.

use vstd::prelude::*;
use crate::text::str_eq;

verus! {

/// A JSON number, as the readings that the converters take of it.
#[derive(Clone, Copy, Debug, PartialEq, Eq, Structural)]
pub struct JsonNumber {
    /// The number, if it is a non-negative integer that fits a `u64`.
    pub unsigned: Option<u64>,
    /// The number in units of 1e-7, rounded to the nearest, if that fits an
    /// `i32` (every longitude and latitude does).
    pub degrees_e7: Option<i32>,
}

/// A JSON value; an object keeps its members in document order.
pub enum JsonValue {
    Null,
    Bool(bool),
    Number(JsonNumber),
    String(String),
    Array(Vec<JsonValue>),
    Object(Vec<(String, JsonValue)>),
}

/// The value of the first member with the given key.
pub open spec fn member(o: Seq<(String, JsonValue)>, key: Seq<char>) -> Option<JsonValue>
    decreases o.len(),
{
    if o.len() == 0 {
        None
    } else if o[0].0@ == key {
        Some(o[0].1)
    } else {
        member(o.drop_first(), key)
    }
}

/// The value of the first member of an object with the given key.
pub fn get_member<'a>(o: &'a Vec<(String, JsonValue)>, key: &str) -> (r: Option<&'a JsonValue>)
    ensures
        match r {
            Some(v) => member(o@, key@) == Some(*v),
            None => member(o@, key@) is None,
        },
{
    let n = o.len();
    let mut i: usize = 0;
    assert(o@.subrange(0, n as int) =~= o@);
    while i < n
        invariant
            n == o@.len(),
            i <= n,
            member(o@, key@) == member(o@.subrange(i as int, n as int), key@),
        decreases n - i,
    {
        assert(o@.subrange(i as int, n as int).drop_first() =~= o@.subrange(i + 1, n as int));
        if str_eq(o[i].0.as_str(), key) {
            return Some(&o[i].1);
        }
        i += 1;
    }
    None
}

} // verus!
