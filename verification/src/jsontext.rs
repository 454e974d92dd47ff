//! JSON as text.
use vstd::prelude::*;

use crate::{json, members};
use crate::json::Json;
use crate::text::{chars_of, string_of_range};

verus! {

/// A value as `serde_json` holds it.
#[verifier::external_type_specification]
#[verifier::external_body]
pub struct ExValue(serde_json::Value);

/// What a value of `serde_json` holds.
pub uninterp spec fn json_held(value: serde_json::Value) -> Json;

/// The value that `raw` writes: what `serde_json::from_str` reads.
pub uninterp spec fn json_text(raw: Seq<char>) -> Option<Json>;

/// How `serde_json` writes a value.
pub uninterp spec fn json_print(value: Json) -> Seq<char>;

/// How `serde_json::to_string` writes a text, with its quotes.
pub uninterp spec fn json_quoted(s: Seq<char>) -> Seq<char>;

/// Calls `serde_json::from_str`.
#[verifier::external_body]
fn serde_read(raw: &str) -> (r: Option<serde_json::Value>)
    ensures
        r matches Some(v) ==> json_text(raw@) == Some(json_held(v)),
        r is None ==> json_text(raw@) is None,
{
    serde_json::from_str(raw).ok()
}

/// Takes a `serde_json::Value` over variant by variant; `as_u64` and `as_i64`
/// tell the three kinds of numbers apart.
#[verifier::external_body]
fn serde_take(value: serde_json::Value) -> (r: Json)
    ensures
        r == json_held(value),
{
    match value {
        serde_json::Value::Null => Json::Null,
        serde_json::Value::Bool(b) => Json::Bool(b),
        serde_json::Value::Number(n) => match (n.as_u64(), n.as_i64()) {
            (Some(u), _) => Json::Unsigned(u),
            (None, Some(i)) => Json::Negative(i),
            (None, None) => Json::Float(n.to_string()),
        },
        serde_json::Value::String(s) => Json::Text(s),
        serde_json::Value::Array(v) => Json::List(v.into_iter().map(serde_take).collect()),
        serde_json::Value::Object(m) => Json::Object(m.into_iter().map(|(k, v)| (k, serde_take(v))).collect()),
    }
}

/// The members of a `serde_json::Value` that is an object, in the order in
/// which `serde_json::Map` walks them.
#[verifier::external_body]
fn serde_members(value: serde_json::Value) -> (r: Option<Vec<(String, serde_json::Value)>>)
    ensures
        r is Some <==> json_held(value) is Object,
        r matches Some(members) ==> {
            let entries = json_held(value)->Object_0;
            &&& entries@.len() == members@.len()
            &&& forall|i: int|
                0 <= i < members@.len() ==> (#[trigger] entries@[i]).0@ == members@[i].0@
                    && entries@[i].1 == json_held(members@[i].1)
        },
{
    match value {
        serde_json::Value::Object(m) => Some(m.into_iter().collect()),
        _ => None,
    }
}

/// Makes a `serde_json::Value` of a text.
#[verifier::external_body]
pub(crate) fn serde_text(s: &str) -> (r: serde_json::Value)
    ensures
        json::as_text(Some(json_held(r))) == Some(s@),
{
    serde_json::Value::String(s.to_owned())
}

/// Makes a `serde_json::Value` of a number.
#[verifier::external_body]
pub(crate) fn serde_number(n: u64) -> (r: serde_json::Value)
    ensures
        json_held(r) == Json::Unsigned(n),
{
    serde_json::Value::from(n)
}

/// Makes a `serde_json::Value` that is an object of its members, as
/// `serde_json::Map` collects them: it has those members, each under its name,
/// where no name comes twice, and no others. No name is there twice.
#[verifier::external_body]
pub(crate) fn serde_object(members: Vec<(String, serde_json::Value)>) -> (r: serde_json::Value)
    ensures
        json_held(r) is Object,
        members::names_differ(json_held(r)->Object_0@),
        forall|k: int|
            0 <= k < json_held(r)->Object_0@.len() ==> exists|i: int|
                0 <= i < members@.len() && json_held((#[trigger] members@[i]).1) == (
                #[trigger] json_held(r)->Object_0@[k]).1,
        (forall|i: int, j: int|
            0 <= i < j < members@.len() ==> (#[trigger] members@[i]).0@ != (
            #[trigger] members@[j]).0@) ==> forall|i: int|
            0 <= i < members@.len()
                ==> json::member(json_held(r), (#[trigger] members@[i]).0@) == Some(
                json_held(members@[i].1),
            ),
{
    serde_json::Value::Object(members.into_iter().collect())
}

/// Calls `to_string` of a `serde_json::Value`.
#[verifier::external_body]
fn serde_show(value: &serde_json::Value) -> (r: String)
    ensures
        r@ == json_print(json_held(*value)),
{
    value.to_string()
}

/// Calls `serde_json::to_string` on a text, which never fails. What it writes
/// starts and ends with a quote.
#[verifier::external_body]
fn serde_quote(s: &str) -> (r: String)
    ensures
        r@ == json_quoted(s@),
        r@.len() >= 2,
        r@[0] == '"',
        r@.last() == '"',
{
    serde_json::to_string(s).unwrap_or_default()
}

/// The value that `raw` writes.
pub fn parse_json(raw: &str) -> (r: Option<Json>)
    ensures
        r == json_text(raw@),
{
    match serde_read(raw) {
        Some(v) => Some(serde_take(v)),
        None => None,
    }
}

/// The text `s` in JSON notation, with its quotes.
pub fn quote(s: &str) -> (r: String)
    ensures
        r@ == json_quoted(s@),
{
    serde_quote(s)
}

/// The text `s` in JSON notation, without its quotes.
pub fn json_escape(raw: &str) -> (r: String)
    ensures
        r@ == json_quoted(raw@).subrange(1, json_quoted(raw@).len() - 1),
{
    let q = serde_quote(raw);
    let chars = chars_of(q.as_str());
    string_of_range(&chars, 1, chars.len() - 1)
}

/// Why a text is no object of texts.
#[derive(Debug, Clone, Copy, PartialEq, Eq, Structural)]
pub enum MapError {
    NotJson,
    NotObject,
}

/// The member `value` as text: a text as it is, anything else as JSON writes
/// it.
pub open spec fn member_text(value: Json) -> Seq<char> {
    match value {
        Json::Text(s) => s@,
        _ => json_print(value),
    }
}

/// The members of an object, each with its text.
pub open spec fn members_text(entries: Seq<(String, Json)>) -> Seq<(Seq<char>, Seq<char>)> {
    entries.map_values(|e: (String, Json)| (e.0@, member_text(e.1)))
}

/// The texts of pairs.
pub open spec fn pair_texts(v: Seq<(String, String)>) -> Seq<(Seq<char>, Seq<char>)> {
    v.map_values(|p: (String, String)| (p.0@, p.1@))
}

/// The members of the object that `raw` writes, each with its text, or why
/// there are none.
pub open spec fn string_map_of(raw: Seq<char>) -> Result<Seq<(Seq<char>, Seq<char>)>, MapError> {
    match json_text(raw) {
        None => Err(MapError::NotJson),
        Some(Json::Object(entries)) => Ok(members_text(entries@)),
        Some(_) => Err(MapError::NotObject),
    }
}

/// The members of the object that `raw` writes, each with its text.
pub fn json_string_map(raw: &str) -> (r: Result<Vec<(String, String)>, MapError>)
    ensures
        match r {
            Ok(v) => string_map_of(raw@) == Ok::<Seq<(Seq<char>, Seq<char>)>, MapError>(
                pair_texts(v@),
            ),
            Err(e) => string_map_of(raw@) == Err::<Seq<(Seq<char>, Seq<char>)>, MapError>(e),
        },
{
    let value = match serde_read(raw) {
        Some(v) => v,
        None => {
            return Err(MapError::NotJson);
        },
    };
    let ghost entries = json_held(value)->Object_0;
    let mut members = match serde_members(value) {
        Some(m) => m,
        None => {
            return Err(MapError::NotObject);
        },
    };
    let ghost all = members@;
    let mut rev: Vec<(String, String)> = Vec::new();
    proof {
        assert(pair_texts(rev@) =~= members_text(entries@.skip(entries@.len() as int)).reverse());
    }
    while members.len() > 0
        invariant
            members@ == all.take(members@.len() as int),
            members@.len() <= all.len(),
            entries@.len() == all.len(),
            forall|i: int|
                0 <= i < all.len() ==> (#[trigger] entries@[i]).0@ == all[i].0@ && entries@[i].1
                    == json_held(all[i].1),
            pair_texts(rev@) == members_text(entries@.skip(members@.len() as int)).reverse(),
        decreases members@.len(),
    {
        let ghost n = members@.len() - 1;
        let last = members.pop().unwrap();
        let (key, value) = last;
        proof {
            assert(entries@[n].0@ == all[n].0@);
        }
        let shown = serde_show(&value);
        let text = match serde_take(value) {
            Json::Text(s) => s,
            _ => shown,
        };
        let pair = (key, text);
        proof {
            assert(text@ == member_text(entries@[n].1));
            assert(members_text(entries@.skip(n)).reverse() =~= members_text(
                entries@.skip(n + 1),
            ).reverse().push((pair.0@, pair.1@)));
            assert(pair_texts(rev@.push(pair)) =~= pair_texts(rev@).push((pair.0@, pair.1@)));
        }
        rev.push(pair);
    }
    let mut out: Vec<(String, String)> = Vec::new();
    let ghost back = rev@;
    proof {
        assert(entries@.skip(0) =~= entries@);
        assert(pair_texts(out@) =~= pair_texts(back.skip(back.len() as int)).reverse());
    }
    while rev.len() > 0
        invariant
            rev@ == back.take(rev@.len() as int),
            rev@.len() <= back.len(),
            pair_texts(out@) == pair_texts(back.skip(rev@.len() as int)).reverse(),
        decreases rev@.len(),
    {
        let ghost n = rev@.len() - 1;
        let pair = rev.pop().unwrap();
        proof {
            assert(pair_texts(back.skip(n)).reverse() =~= pair_texts(
                back.skip(n + 1),
            ).reverse().push((pair.0@, pair.1@)));
            assert(pair_texts(out@.push(pair)) =~= pair_texts(out@).push((pair.0@, pair.1@)));
        }
        out.push(pair);
    }
    proof {
        assert(back.skip(0) =~= back);
        assert(pair_texts(out@) =~= members_text(entries@));
    }
    Ok(out)
}

/// The members of an object are told by their names, each with its text: a text as it is,
/// without quotes, and anything else as JSON writes it. What is no JSON, and what is no
/// object, is told apart.
pub proof fn members_are_told_as_texts(
    raw: Seq<char>,
    entries: Vec<(String, Json)>,
    i: int,
    value: Json,
)
    requires
        0 <= i < entries@.len(),
    ensures
        json_text(raw) == Some(Json::Object(entries)) ==> (string_map_of(raw) matches Ok(told)
            && told.len() == entries@.len() && told[i].0 == entries@[i].0@ && match entries@[i].1 {
            Json::Text(s) => told[i].1 == s@,
            other => told[i].1 == json_print(other),
        }),
        json_text(raw) is None ==> string_map_of(raw) == Err::<
            Seq<(Seq<char>, Seq<char>)>,
            MapError,
        >(MapError::NotJson),
        json_text(raw) == Some(value) && !(value is Object) ==> string_map_of(raw) == Err::<
            Seq<(Seq<char>, Seq<char>)>,
            MapError,
        >(MapError::NotObject),
{
}

} // verus!
