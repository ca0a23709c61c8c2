//! Text fields of JSON values.
use vstd::prelude::*;

verus! {

/// What the bytes are as JSON: nothing if they are none, else the text under
/// `key`, if the value is an object with a text there.
pub uninterp spec fn json_text(bytes: Seq<u8>, key: Seq<char>) -> Option<Option<Seq<char>>>;

/// What the bytes are as JSON: nothing if they are no array, else the texts
/// under the keys `a` and `b` of each of its elements.
pub uninterp spec fn json_rows(bytes: Seq<u8>, a: Seq<char>, b: Seq<char>) -> Option<
    Seq<(Option<Seq<char>>, Option<Seq<char>>)>,
>;

pub open spec fn maybe(s: Option<String>) -> Option<Seq<char>> {
    match s {
        Some(s) => Some(s@),
        None => None,
    }
}

pub open spec fn row_views(rows: Seq<(Option<String>, Option<String>)>) -> Seq<
    (Option<Seq<char>>, Option<Seq<char>>),
> {
    rows.map_values(|r: (Option<String>, Option<String>)| (maybe(r.0), maybe(r.1)))
}

/// `serde_json::from_slice` into a `Value`, then `Value::get` and
/// `Value::as_str`: the result depends on the bytes and the key alone. What
/// JSON is, is not stated.
#[verifier::external_body]
pub(crate) fn text_field(bytes: &[u8], key: &str) -> (r: Option<Option<String>>)
    ensures
        match r {
            Some(s) => json_text(bytes@, key@) == Some(maybe(s)),
            None => json_text(bytes@, key@) is None,
        },
{
    match serde_json::from_slice::<serde_json::Value>(bytes) {
        Ok(v) => Some(v.get(key).and_then(|x| x.as_str()).map(|s| s.to_string())),
        Err(_) => None,
    }
}

/// `serde_json::from_slice` into a `Value`, then `Value::as_array`, and
/// `Value::get` and `Value::as_str` of each element: the result depends on the
/// bytes and the keys alone. What JSON is, is not stated.
#[verifier::external_body]
pub(crate) fn text_rows(bytes: &[u8], a: &str, b: &str) -> (r: Option<
    Vec<(Option<String>, Option<String>)>,
>)
    ensures
        match r {
            Some(c) => json_rows(bytes@, a@, b@) == Some(row_views(c@)),
            None => json_rows(bytes@, a@, b@) is None,
        },
{
    let v = serde_json::from_slice::<serde_json::Value>(bytes).ok()?;
    let text = |row: &serde_json::Value, key: &str| {
        row.get(key).and_then(|x| x.as_str()).map(|s| s.to_string())
    };
    Some(v.as_array()?.iter().map(|row| (text(row, a), text(row, b))).collect())
}

} // verus!
