//! JSON values as the dashboard reads them: request bodies, alert rules and
//! provider replies.
use vstd::prelude::*;

use crate::{convert, search, text};
use crate::convert::wrap_i64;
use crate::text::{same, trim};

verus! {

/// A JSON value. Numbers are told apart by what they fit: `Unsigned` holds the
/// integers from zero up, `Negative` those below, and `Float` any other number
/// in its printed form.
#[derive(Debug)]
pub enum Json {
    Null,
    Bool(bool),
    Unsigned(u64),
    Negative(i64),
    Float(String),
    Text(String),
    List(Vec<Json>),
    Object(Vec<(String, Json)>),
}

/// What the first entry named `key` holds.
pub open spec fn entry_of(entries: Seq<(String, Json)>, key: Seq<char>) -> Option<Json>
    decreases entries.len(),
{
    if entries.len() == 0 {
        None
    } else if entries[0].0@ == key {
        Some(entries[0].1)
    } else {
        entry_of(entries.drop_first(), key)
    }
}

/// The member of the object `j` named `key`; other values have no members.
pub open spec fn member(j: Json, key: Seq<char>) -> Option<Json> {
    match j {
        Json::Object(entries) => entry_of(entries@, key),
        _ => None,
    }
}

pub open spec fn as_text(j: Option<Json>) -> Option<Seq<char>> {
    match j {
        Some(Json::Text(s)) => Some(s@),
        _ => None,
    }
}

pub open spec fn as_u64(j: Option<Json>) -> Option<u64> {
    match j {
        Some(Json::Unsigned(n)) => Some(n),
        _ => None,
    }
}

pub open spec fn as_i64(j: Option<Json>) -> Option<i64> {
    match j {
        Some(Json::Unsigned(n)) => if n <= i64::MAX {
            Some(n as i64)
        } else {
            None
        },
        Some(Json::Negative(n)) => Some(n),
        _ => None,
    }
}

pub open spec fn as_bool(j: Option<Json>) -> Option<bool> {
    match j {
        Some(Json::Bool(b)) => Some(b),
        _ => None,
    }
}

pub open spec fn as_list(j: Option<Json>) -> Option<Seq<Json>> {
    match j {
        Some(Json::List(v)) => Some(v@),
        _ => None,
    }
}

/// `x`, or `d` where there is none.
pub open spec fn or_else<T>(x: Option<T>, d: T) -> T {
    match x {
        Some(v) => v,
        None => d,
    }
}

/// What the first of `entries` named `key` holds.
pub fn find_entry<'a>(entries: &'a Vec<(String, Json)>, key: &str) -> (r: Option<&'a Json>)
    ensures
        r.is_some() == entry_of(entries@, key@).is_some(),
        r matches Some(v) ==> *v == entry_of(entries@, key@)->0,
{
    let mut i: usize = 0;
    proof {
        assert(entries@.skip(0) =~= entries@);
    }
    while i < entries.len()
        invariant
            i <= entries@.len(),
            entry_of(entries@.skip(i as int), key@) == entry_of(entries@, key@),
        decreases entries@.len() - i,
    {
        if same(entries[i].0.as_str(), key) {
            return Some(&entries[i].1);
        }
        proof {
            assert(entries@.skip(i as int).drop_first() =~= entries@.skip(i + 1));
        }
        i += 1;
    }
    None
}

impl Json {
    /// The member named `key`.
    pub fn get(&self, key: &str) -> (r: Option<&Json>)
        ensures
            r.is_some() == member(*self, key@).is_some(),
            r matches Some(v) ==> *v == member(*self, key@)->0,
    {
        match self {
            Json::Object(entries) => find_entry(entries, key),
            _ => None,
        }
    }

    pub fn text(&self) -> (r: Option<&str>)
        ensures
            r.is_some() == as_text(Some(*self)).is_some(),
            r matches Some(s) ==> s@ == as_text(Some(*self))->0,
    {
        match self {
            Json::Text(s) => Some(s.as_str()),
            _ => None,
        }
    }

    pub fn boolean(&self) -> (r: Option<bool>)
        ensures
            r == as_bool(Some(*self)),
    {
        match self {
            Json::Bool(b) => Some(*b),
            _ => None,
        }
    }

    pub fn unsigned(&self) -> (r: Option<u64>)
        ensures
            r == as_u64(Some(*self)),
    {
        match self {
            Json::Unsigned(n) => Some(*n),
            _ => None,
        }
    }

    pub fn signed(&self) -> (r: Option<i64>)
        ensures
            r == as_i64(Some(*self)),
    {
        match self {
            Json::Unsigned(n) => if *n <= i64::MAX as u64 {
                Some(*n as i64)
            } else {
                None
            },
            Json::Negative(n) => Some(*n),
            _ => None,
        }
    }
}

/// What `string_field` gives.
pub open spec fn text_member(body: Json, key: Seq<char>) -> Seq<char> {
    or_else(as_text(member(body, key)), seq![])
}

/// The text member named `key`, or the empty text.
pub fn string_field(body: &Json, key: &str) -> (r: String)
    ensures
        r@ == text_member(*body, key@),
{
    match body.get(key) {
        Some(v) => match v.text() {
            Some(s) => s.to_owned(),
            None => String::new(),
        },
        None => String::new(),
    }
}

/// What `u64_field` gives.
pub open spec fn u64_member(body: Json, key: Seq<char>) -> u64 {
    or_else(as_u64(member(body, key)), 0)
}

/// The number member named `key` where it is an integer from zero up, or zero.
pub fn u64_field(body: &Json, key: &str) -> (r: u64)
    ensures
        r == u64_member(*body, key@),
{
    match body.get(key) {
        Some(v) => match v.unsigned() {
            Some(n) => n,
            None => 0,
        },
        None => 0,
    }
}

/// What `i64_field` gives: a number above the signed range wraps round.
pub open spec fn i64_member(body: Json, key: Seq<char>) -> int {
    match member(body, key) {
        Some(Json::Negative(n)) => n as int,
        Some(Json::Unsigned(n)) => convert::wrapped(n),
        _ => 0,
    }
}

/// The integer member named `key`, or zero.
pub fn i64_field(body: &Json, key: &str) -> (r: i64)
    ensures
        r == i64_member(*body, key@),
{
    match body.get(key) {
        Some(Json::Negative(n)) => *n,
        Some(Json::Unsigned(n)) => wrap_i64(*n),
        _ => 0,
    }
}

/// The low eight bits of the number member named `key`.
pub fn u8_field(body: &Json, key: &str) -> (r: u8)
    ensures
        r == u64_member(*body, key@) % 256,
{
    let v: u64 = u64_field(body, key);
    (v % 256) as u8
}

/// 1 where the member named `key` is `true`, else 0.
pub fn bool_i64(body: &Json, key: &str) -> (r: i64)
    ensures
        r == if as_bool(member(*body, key@)) == Some(true) { 1int } else { 0int },
{
    match body.get(key) {
        Some(Json::Bool(true)) => 1,
        _ => 0,
    }
}

/// 1 or 0 for the truth value of the member named `key`, where it has one.
pub fn opt_bool_i64(body: &Json, key: &str) -> (r: Option<i64>)
    ensures
        r == match as_bool(member(*body, key@)) {
            Some(true) => Some(1i64),
            Some(false) => Some(0i64),
            None => None,
        },
{
    match body.get(key) {
        Some(v) => match v.boolean() {
            Some(b) => if b {
                Some(1)
            } else {
                Some(0)
            },
            None => None,
        },
        None => None,
    }
}

/// The integers from zero up among `items`, in order.
pub open spec fn unsigned_items(items: Seq<Json>) -> Seq<u64>
    decreases items.len(),
{
    if items.len() == 0 {
        seq![]
    } else {
        match items.last() {
            Json::Unsigned(n) => unsigned_items(items.drop_last()).push(n),
            _ => unsigned_items(items.drop_last()),
        }
    }
}

/// What `u64_list_field` gives.
pub open spec fn u64_list_member(body: Json, key: Seq<char>) -> Seq<u64> {
    unsigned_items(or_else(as_list(member(body, key)), seq![]))
}

/// The integers from zero up in the list `items`.
pub fn unsigned_list(items: &Vec<Json>) -> (r: Vec<u64>)
    ensures
        r@ == unsigned_items(items@),
{
    let mut out: Vec<u64> = Vec::new();
    let mut i: usize = 0;
    while i < items.len()
        invariant
            i <= items@.len(),
            out@ == unsigned_items(items@.take(i as int)),
        decreases items@.len() - i,
    {
        proof {
            assert(items@.take(i + 1).drop_last() =~= items@.take(i as int));
        }
        match &items[i] {
            Json::Unsigned(n) => {
                out.push(*n);
            },
            _ => {},
        }
        i += 1;
    }
    proof {
        assert(items@.take(items@.len() as int) =~= items@);
    }
    out
}

/// The integers from zero up in the list member named `key`.
pub fn u64_list_field(body: &Json, key: &str) -> (r: Vec<u64>)
    ensures
        r@ == u64_list_member(*body, key@),
{
    match body.get(key) {
        Some(Json::List(items)) => unsigned_list(items),
        _ => {
            let out: Vec<u64> = Vec::new();
            proof {
                assert(out@ =~= unsigned_items(seq![]));
            }
            out
        },
    }
}

/// The texts among `items`, in order.
pub open spec fn text_items(items: Seq<Json>) -> Seq<Seq<char>>
    decreases items.len(),
{
    if items.len() == 0 {
        seq![]
    } else {
        match items.last() {
            Json::Text(s) => text_items(items.drop_last()).push(s@),
            _ => text_items(items.drop_last()),
        }
    }
}

/// What `string_list_field` gives.
pub open spec fn text_list_member(body: Json, key: Seq<char>) -> Seq<Seq<char>> {
    text_items(or_else(as_list(member(body, key)), seq![]))
}

/// The texts in the list member named `key`.
pub fn string_list_field(body: &Json, key: &str) -> (r: Vec<String>)
    ensures
        search::texts(r@) == text_list_member(*body, key@),
{
    let mut out: Vec<String> = Vec::new();
    match body.get(key) {
        Some(Json::List(items)) => {
            let mut i: usize = 0;
            proof {
                assert(search::texts(out@) =~= text_items(items@.take(0)));
            }
            while i < items.len()
                invariant
                    i <= items@.len(),
                    search::texts(out@) == text_items(items@.take(i as int)),
                decreases items@.len() - i,
            {
                proof {
                    assert(items@.take(i + 1).drop_last() =~= items@.take(i as int));
                }
                match &items[i] {
                    Json::Text(s) => {
                        let copy = s.clone();
                        proof {
                            search::lemma_texts_push(out@, copy);
                        }
                        out.push(copy);
                    },
                    _ => {},
                }
                i += 1;
            }
            proof {
                assert(items@.take(items@.len() as int) =~= items@);
            }
            out
        },
        _ => {
            proof {
                assert(search::texts(out@) =~= text_items(seq![]));
            }
            out
        },
    }
}

/// The text member named `key` without white space at its ends.
pub fn trimmed_field(body: &Json, key: &str) -> (r: String)
    ensures
        r@ == text::trimmed(text_member(*body, key@)),
{
    let s = string_field(body, key);
    trim(s.as_str())
}

/// A member of an object is what its first entry of that name holds, whatever
/// stands behind it; where no entry has the name there is none.
pub proof fn members_are_the_first_of_their_name(
    entries: Vec<(String, Json)>,
    key: Seq<char>,
    at: int,
)
    requires
        0 <= at <= entries@.len(),
        forall|i: int| 0 <= i < at ==> (#[trigger] entries@[i]).0@ != key,
        at < entries@.len() ==> entries@[at].0@ == key,
    ensures
        member(Json::Object(entries), key) == if at < entries@.len() {
            Some(entries@[at].1)
        } else {
            None
        },
{
    lemma_first_entry(entries@, key, at);
}

proof fn lemma_first_entry(entries: Seq<(String, Json)>, key: Seq<char>, at: int)
    requires
        0 <= at <= entries.len(),
        forall|i: int| 0 <= i < at ==> (#[trigger] entries[i]).0@ != key,
        at < entries.len() ==> entries[at].0@ == key,
    ensures
        entry_of(entries, key) == if at < entries.len() {
            Some(entries[at].1)
        } else {
            None
        },
    decreases entries.len(),
{
    if at > 0 {
        let rest = entries.drop_first();
        assert forall|i: int| 0 <= i < at - 1 implies (#[trigger] rest[i]).0@ != key by {
            assert(rest[i] == entries[i + 1]);
        }
        lemma_first_entry(rest, key, at - 1);
    }
}

/// Of a list those items are taken that are of the kind asked for, in their order;
/// what is no list has none.
pub proof fn items_of_a_kind_are_taken(items: Seq<Json>)
    ensures
        unsigned_items(items) == items.filter(|j: Json| j is Unsigned).map_values(
            |j: Json| j->Unsigned_0,
        ),
        text_items(items) == items.filter(|j: Json| j is Text).map_values(|j: Json| j->Text_0@),
    decreases items.len(),
{
    reveal(Seq::filter);
    if items.len() > 0 {
        items_of_a_kind_are_taken(items.drop_last());
    }
    assert(unsigned_items(items) =~= items.filter(|j: Json| j is Unsigned).map_values(
        |j: Json| j->Unsigned_0,
    ));
    assert(text_items(items) =~= items.filter(|j: Json| j is Text).map_values(
        |j: Json| j->Text_0@,
    ));
}

/// A member that is missing, or of another kind than is asked for, counts as the empty
/// text, as zero and as no list; one that is of the kind counts as it is.
pub proof fn members_count_by_their_kind(body: Json, key: Seq<char>)
    ensures
        member(body, key) is None ==> text_member(body, key).len() == 0 && u64_member(body, key)
            == 0 && i64_member(body, key) == 0 && u64_list_member(body, key).len() == 0
            && text_list_member(body, key).len() == 0,
        member(body, key) matches Some(Json::Text(s)) ==> text_member(body, key) == s@
            && u64_member(body, key) == 0,
        member(body, key) matches Some(Json::Unsigned(n)) ==> u64_member(body, key) == n && (n
            <= i64::MAX ==> i64_member(body, key) == n) && text_member(body, key).len() == 0,
        member(body, key) matches Some(Json::Negative(n)) ==> i64_member(body, key) == n
            && u64_member(body, key) == 0,
        member(body, key) matches Some(Json::List(items)) ==> u64_list_member(body, key)
            == unsigned_items(items@) && text_list_member(body, key) == text_items(items@),
{
    assert(unsigned_items(seq![]) =~= seq![]);
    assert(text_items(seq![]) =~= seq![]);
}

} // verus!
