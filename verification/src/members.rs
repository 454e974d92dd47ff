//! The members of a JSON object as they are written, each as often as it is there.
use vstd::prelude::*;

use crate::{json, jsontext, search};
use crate::json::Json;
use crate::jsontext::parse_json;
use crate::search::find_char;
use crate::text::{chars_of, same, string_of_range};

verus! {

/// Where the text ends that goes on at `i`: at the next quote that no backslash
/// stands before, or at the end.
pub open spec fn string_end(s: Seq<char>, i: int) -> int
    decreases s.len() - i,
{
    if i >= s.len() {
        s.len() as int
    } else if s[i] == '"' {
        i
    } else if s[i] == '\\' && i + 1 < s.len() {
        string_end(s, i + 2)
    } else {
        string_end(s, i + 1)
    }
}

/// Where the value ends that goes on at `i`, within `depth` brackets of its own: at
/// the comma or the closing bracket behind it, or at the end.
pub open spec fn value_end(s: Seq<char>, i: int, depth: nat) -> int
    decreases s.len() - i,
{
    if i >= s.len() {
        s.len() as int
    } else if s[i] == '"' {
        let end = string_end(s, i + 1);
        if i < end < s.len() {
            value_end(s, end + 1, depth)
        } else {
            s.len() as int
        }
    } else if s[i] == '{' || s[i] == '[' {
        value_end(s, i + 1, depth + 1)
    } else if depth > 0 && (s[i] == '}' || s[i] == ']') {
        value_end(s, i + 1, (depth - 1) as nat)
    } else if depth == 0 && (s[i] == '}' || s[i] == ']' || s[i] == ',') {
        i
    } else {
        value_end(s, i + 1, depth)
    }
}

/// The members from `i` on, where one may begin: the name of each in its quotes, and
/// its value.
pub open spec fn members_from(s: Seq<char>, i: int) -> Seq<(Seq<char>, Seq<char>)>
    decreases s.len() - i,
{
    let open = search::index_of_char(s, '"', i);
    let close = string_end(s, open + 1);
    let colon = search::index_of_char(s, ':', close);
    let end = value_end(s, colon + 1, 0);
    if !(i <= open < close < colon < end <= s.len()) {
        seq![]
    } else {
        let first = seq![(s.subrange(open, close + 1), s.subrange(colon + 1, end))];
        if end < s.len() && s[end] == ',' {
            first + members_from(s, end + 1)
        } else {
            first
        }
    }
}

/// The members of the object that a text of JSON is.
pub open spec fn written_members(raw: Seq<char>) -> Option<Seq<(Seq<char>, Seq<char>)>> {
    if raw.len() > 0 && raw[0] == '{' {
        Some(members_from(raw, 1))
    } else {
        None
    }
}

fn find_string_end(chars: &[char], from: usize) -> (r: usize)
    requires
        from <= chars@.len(),
    ensures
        r == string_end(chars@, from as int),
        from <= r <= chars@.len(),
{
    let mut i: usize = from;
    while i < chars.len() && chars[i] != '"'
        invariant
            from <= i <= chars@.len(),
            string_end(chars@, i as int) == string_end(chars@, from as int),
        decreases chars@.len() - i,
    {
        if chars[i] == '\\' && i + 1 < chars.len() {
            i += 2;
        } else {
            i += 1;
        }
    }
    i
}

fn find_value_end(chars: &[char], from: usize) -> (r: usize)
    requires
        from <= chars@.len(),
    ensures
        r == value_end(chars@, from as int, 0),
        from <= r <= chars@.len(),
{
    let mut i: usize = from;
    let mut depth: usize = 0;
    while i < chars.len()
        invariant
            from <= i <= chars@.len(),
            depth <= i - from,
            value_end(chars@, i as int, depth as nat) == value_end(chars@, from as int, 0),
        decreases chars@.len() - i,
    {
        let c: char = chars[i];
        if c == '"' {
            let end = find_string_end(chars, i + 1);
            if end == chars.len() {
                return end;
            }
            i = end + 1;
        } else if c == '{' || c == '[' {
            depth += 1;
            i += 1;
        } else if depth > 0 && (c == '}' || c == ']') {
            depth -= 1;
            i += 1;
        } else if depth == 0 && (c == '}' || c == ']' || c == ',') {
            return i;
        } else {
            i += 1;
        }
    }
    i
}

fn scan_members(chars: &Vec<char>) -> (r: Vec<(String, String)>)
    requires
        chars@.len() > 0,
    ensures
        jsontext::pair_texts(r@) == members_from(chars@, 1),
{
    let ghost s = chars@;
    let mut out: Vec<(String, String)> = Vec::new();
    let mut i: usize = 1;
    proof {
        assert(jsontext::pair_texts(out@) + members_from(s, 1) =~= members_from(s, 1));
    }
    loop
        invariant
            s == chars@,
            i <= chars@.len(),
            jsontext::pair_texts(out@) + members_from(s, i as int) == members_from(s, 1),
        decreases chars@.len() - i,
    {
        let open = find_char(chars, '"', i);
        if open == chars.len() {
            proof {
                assert(jsontext::pair_texts(out@) + seq![] =~= jsontext::pair_texts(out@));
            }
            return out;
        }
        let close = find_string_end(chars, open + 1);
        let colon = find_char(chars, ':', close);
        if colon == chars.len() {
            proof {
                assert(value_end(s, colon + 1, 0) <= colon);
                assert(jsontext::pair_texts(out@) + seq![] =~= jsontext::pair_texts(out@));
            }
            return out;
        }
        proof {
            assert(close < s.len());
            assert(s[close as int] == '"') by {
                lemma_string_end_is_quote(s, open + 1);
            }
        }
        let end = find_value_end(chars, colon + 1);
        let ghost before = out@;
        let name = string_of_range(chars, open, close + 1);
        let value = string_of_range(chars, colon + 1, end);
        let pair = (name, value);
        proof {
            assert(jsontext::pair_texts(before.push(pair)) =~= jsontext::pair_texts(before).push(
                (pair.0@, pair.1@),
            ));
            assert(pair.0@ =~= s.subrange(open as int, close + 1));
            assert(pair.1@ =~= s.subrange(colon + 1, end as int));
        }
        out.push(pair);
        if end == chars.len() || chars[end] != ',' {
            proof {
                assert(jsontext::pair_texts(out@) =~= jsontext::pair_texts(before) + members_from(s, i as int));
            }
            return out;
        }
        proof {
            assert(jsontext::pair_texts(out@) + members_from(s, end + 1) =~= jsontext::pair_texts(before)
                + members_from(s, i as int));
        }
        i = end + 1;
    }
}

proof fn lemma_string_end_is_quote(s: Seq<char>, i: int)
    requires
        0 <= i <= s.len(),
        string_end(s, i) < s.len(),
    ensures
        s[string_end(s, i)] == '"',
    decreases s.len() - i,
{
    if i < s.len() && s[i] != '"' {
        if s[i] == '\\' && i + 1 < s.len() {
            lemma_string_end_is_quote(s, i + 2);
        } else {
            lemma_string_end_is_quote(s, i + 1);
        }
    }
}

/// The name that a text in quotes writes.
pub open spec fn name_written(quoted: Seq<char>) -> Option<Seq<char>> {
    json::as_text(jsontext::json_text(quoted))
}

/// The members of the object that a text of JSON is: the name of each, and its value
/// where that can be read. There are none where it is no object or one of the names
/// cannot be read.
pub open spec fn told_members(raw: Seq<char>) -> Option<Seq<(Seq<char>, Option<Json>)>> {
    match written_members(raw) {
        Some(members) => if forall|i: int|
            0 <= i < members.len() ==> name_written((#[trigger] members[i]).0) is Some {
            Some(
                members.map_values(
                    |m: (Seq<char>, Seq<char>)| (name_written(m.0)->0, jsontext::json_text(m.1)),
                ),
            )
        } else {
            None
        },
        None => None,
    }
}

/// What `v` holds.
pub open spec fn member_views(v: Seq<(String, Option<Json>)>) -> Seq<(Seq<char>, Option<Json>)> {
    v.map_values(|m: (String, Option<Json>)| (m.0@, m.1))
}

/// The members of the object that a text of JSON is.
pub fn read_members(raw: &str) -> (r: Option<Vec<(String, Option<Json>)>>)
    ensures
        match r {
            Some(v) => told_members(raw@) == Some(member_views(v@)),
            None => told_members(raw@) is None,
        },
{
    let chars = chars_of(raw);
    if chars.len() == 0 || chars[0] != '{' {
        return None;
    }
    let written = scan_members(&chars);
    let ghost texts = members_from(raw@, 1);
    let mut out: Vec<(String, Option<Json>)> = Vec::new();
    let mut i: usize = 0;
    while i < written.len()
        invariant
            i <= written@.len(),
            texts == jsontext::pair_texts(written@),
            written_members(raw@) == Some(texts),
            out@.len() == i,
            forall|k: int|
                0 <= k < i ==> name_written((#[trigger] texts[k]).0) == Some(out@[k].0@)
                    && out@[k].1 == jsontext::json_text(texts[k].1),
        decreases written@.len() - i,
    {
        proof {
            assert(texts[i as int] == (written@[i as int].0@, written@[i as int].1@));
        }
        let name = match parse_json(written[i].0.as_str()) {
            Some(Json::Text(name)) => name,
            _ => {
                proof {
                    assert(name_written(texts[i as int].0) is None);
                }
                return None;
            },
        };
        let value = parse_json(written[i].1.as_str());
        out.push((name, value));
        i += 1;
    }
    proof {
        assert(member_views(out@) =~= texts.map_values(
            |m: (Seq<char>, Seq<char>)| (name_written(m.0)->0, jsontext::json_text(m.1)),
        ));
    }
    Some(out)
}

/// The values of the members with a name.
pub open spec fn values_of(members: Seq<(Seq<char>, Option<Json>)>, name: Seq<char>) -> Seq<
    Option<Json>,
>
    decreases members.len(),
{
    if members.len() == 0 {
        seq![]
    } else {
        let before = values_of(members.drop_last(), name);
        if members.last().0 == name {
            before.push(members.last().1)
        } else {
            before
        }
    }
}

/// The value of the member with a name, where there is one such member and no other.
pub open spec fn only_value(members: Seq<(Seq<char>, Option<Json>)>, name: Seq<char>) -> Option<
    Json,
> {
    let values = values_of(members, name);
    if values.len() == 1 {
        values[0]
    } else {
        None
    }
}

/// The value of the member with a name, where there is one such member and no other.
pub fn only_member<'a>(members: &'a Vec<(String, Option<Json>)>, name: &str) -> (r: Option<
    &'a Json,
>)
    ensures
        match r {
            Some(value) => only_value(member_views(members@), name@) == Some(*value),
            None => only_value(member_views(members@), name@) is None,
        },
{
    let ghost views = member_views(members@);
    let mut found: usize = 0;
    let mut last: usize = 0;
    let mut i: usize = 0;
    proof {
        assert(views.take(0) =~= seq![]);
    }
    while i < members.len()
        invariant
            i <= members@.len(),
            views == member_views(members@),
            found <= i,
            found > 0 ==> last < members@.len(),
            found == values_of(views.take(i as int), name@).len(),
            found > 0 ==> values_of(views.take(i as int), name@).last() == members@[last as int].1,
        decreases members@.len() - i,
    {
        proof {
            assert(views.take(i + 1).drop_last() =~= views.take(i as int));
            assert(views.take(i + 1).last() == (members@[i as int].0@, members@[i as int].1));
        }
        if same(members[i].0.as_str(), name) {
            found += 1;
            last = i;
        }
        i += 1;
    }
    proof {
        assert(views.take(views.len() as int) =~= views);
    }
    if found == 1 {
        match &members[last].1 {
            Some(value) => Some(value),
            None => None,
        }
    } else {
        None
    }
}

/// The entries of an object as its members are told.
pub open spec fn told_entries(entries: Seq<(String, Json)>) -> Seq<(Seq<char>, Option<Json>)> {
    entries.map_values(|e: (String, Json)| (e.0@, Some(e.1)))
}

/// Whether no name is there twice.
pub open spec fn names_differ(entries: Seq<(String, Json)>) -> bool {
    forall|i: int, j: int|
        0 <= i < j < entries.len() ==> (#[trigger] entries[i]).0@ != (#[trigger] entries[j]).0@
}

proof fn lemma_no_values(members: Seq<(Seq<char>, Option<Json>)>, name: Seq<char>)
    requires
        forall|i: int| 0 <= i < members.len() ==> (#[trigger] members[i]).0 != name,
    ensures
        values_of(members, name) == Seq::<Option<Json>>::empty(),
    decreases members.len(),
{
    if members.len() > 0 {
        assert forall|i: int| 0 <= i < members.drop_last().len() implies (
        #[trigger] members.drop_last()[i]).0 != name by {
            assert(members[i].0 != name);
        }
        lemma_no_values(members.drop_last(), name);
        assert(members[members.len() - 1].0 != name);
    }
}

proof fn lemma_one_value(members: Seq<(Seq<char>, Option<Json>)>, name: Seq<char>, at: int)
    requires
        0 <= at < members.len(),
        members[at].0 == name,
        forall|i: int| 0 <= i < members.len() && i != at ==> (#[trigger] members[i]).0 != name,
    ensures
        values_of(members, name) == seq![members[at].1],
    decreases members.len(),
{
    let front = members.drop_last();
    assert forall|i: int| 0 <= i < front.len() && i != at implies (#[trigger] front[i]).0
        != name by {
        assert(members[i].0 != name);
    }
    if at == members.len() - 1 {
        lemma_no_values(front, name);
        assert(values_of(members, name) =~= seq![members[at].1]);
    } else {
        assert(front[at] == members[at]);
        lemma_one_value(front, name, at);
        assert(members[members.len() - 1].0 != name);
    }
}

proof fn lemma_entry_place(entries: Seq<(String, Json)>, name: Seq<char>) -> (at: int)
    requires
        json::entry_of(entries, name) is Some,
    ensures
        0 <= at < entries.len(),
        entries[at].0@ == name,
        json::entry_of(entries, name) == Some(entries[at].1),
    decreases entries.len(),
{
    if entries[0].0@ == name {
        0
    } else {
        let at = lemma_entry_place(entries.drop_first(), name);
        at + 1
    }
}

/// An object in which no name is there twice tells each of its members.
pub proof fn entries_are_told(entries: Seq<(String, Json)>, name: Seq<char>)
    requires
        names_differ(entries),
        json::entry_of(entries, name) is Some,
    ensures
        only_value(told_entries(entries), name) == json::entry_of(entries, name),
{
    let at = lemma_entry_place(entries, name);
    let members = told_entries(entries);
    assert(members[at] == (entries[at].0@, Some(entries[at].1)));
    assert forall|i: int| 0 <= i < members.len() && i != at implies (#[trigger] members[i]).0
        != name by {
        assert(members[i].0 == entries[i].0@);
        if i < at {
            assert(entries[i].0@ != entries[at].0@);
        } else {
            assert(entries[at].0@ != entries[i].0@);
        }
    }
    lemma_one_value(members, name, at);
}

/// A member that is there twice is not told.
pub proof fn repeated_members_are_not_told(
    members: Seq<(Seq<char>, Option<Json>)>,
    name: Seq<char>,
    i: int,
    j: int,
)
    requires
        0 <= i < j < members.len(),
        members[i].0 == name,
        members[j].0 == name,
    ensures
        only_value(members, name) is None,
{
    lemma_values_at_least(members, name, i, j);
}

proof fn lemma_values_at_least(
    members: Seq<(Seq<char>, Option<Json>)>,
    name: Seq<char>,
    i: int,
    j: int,
)
    requires
        0 <= i <= j < members.len(),
        members[i].0 == name,
        members[j].0 == name,
    ensures
        values_of(members, name).len() >= if i < j {
            2int
        } else {
            1int
        },
    decreases members.len(),
{
    let front = members.drop_last();
    if j < members.len() - 1 {
        assert(front[i] == members[i] && front[j] == members[j]);
        lemma_values_at_least(front, name, i, j);
    } else if i < j {
        assert(front[i] == members[i]);
        lemma_values_at_least(front, name, i, i);
    }
}

} // verus!
