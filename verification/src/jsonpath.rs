//! Paths into JSON, such as `data.users[0]["id"]`.
use vstd::prelude::*;

use crate::{decimal, json, search, text};
use crate::decimal::{parse_u64, to_decimal};
use crate::json::Json;
use crate::text::{chars_of, concat2, same, trim};

verus! {

/// What stands in brackets from `i` on, behind `read`, up to the closing
/// bracket, and where the text goes on behind it. In quotes a closing bracket
/// does not count, and a backslash takes the next character as it is.
pub open spec fn bracket_text(s: Seq<char>, i: int, read: Seq<char>, quote: Option<char>) -> (
    Seq<char>,
    int,
)
    decreases s.len() - i,
{
    if i >= s.len() {
        (read, i)
    } else {
        match quote {
            Some(q) => if s[i] == '\\' {
                if i + 1 < s.len() {
                    bracket_text(s, i + 2, read.push(s[i + 1]), quote)
                } else {
                    (read, i + 1)
                }
            } else if s[i] == q {
                bracket_text(s, i + 1, read, None)
            } else {
                bracket_text(s, i + 1, read.push(s[i]), quote)
            },
            None => if s[i] == '"' || s[i] == '\'' {
                bracket_text(s, i + 1, read, Some(s[i]))
            } else if s[i] == ']' {
                (read, i + 1)
            } else {
                bracket_text(s, i + 1, read.push(s[i]), quote)
            },
        }
    }
}

proof fn lemma_bracket_end(s: Seq<char>, i: int, read: Seq<char>, quote: Option<char>)
    ensures
        bracket_text(s, i, read, quote).1 >= i,
        i <= s.len() ==> bracket_text(s, i, read, quote).1 <= s.len(),
    decreases s.len() - i,
{
    if i < s.len() {
        match quote {
            Some(q) => {
                if s[i] == '\\' {
                    if i + 1 < s.len() {
                        lemma_bracket_end(s, i + 2, read.push(s[i + 1]), quote);
                    }
                } else if s[i] == q {
                    lemma_bracket_end(s, i + 1, read, None);
                } else {
                    lemma_bracket_end(s, i + 1, read.push(s[i]), quote);
                }
            },
            None => {
                if s[i] == '"' || s[i] == '\'' {
                    lemma_bracket_end(s, i + 1, read, Some(s[i]));
                } else if s[i] != ']' {
                    lemma_bracket_end(s, i + 1, read.push(s[i]), quote);
                }
            },
        }
    }
}

/// A text as a sequence of one, or none where it is empty.
pub open spec fn unless_empty(s: Seq<char>) -> Seq<Seq<char>> {
    if s.len() == 0 {
        seq![]
    } else {
        seq![s]
    }
}

/// The steps of a path from `i` on, behind the part `read` of a step: dots and
/// brackets end a step, and a backslash takes the next character as it is.
pub open spec fn steps_from(s: Seq<char>, i: int, read: Seq<char>) -> Seq<Seq<char>>
    decreases s.len() - i,
{
    if i >= s.len() {
        unless_empty(read)
    } else if s[i] == '\\' {
        if i + 1 < s.len() {
            steps_from(s, i + 2, read.push(s[i + 1]))
        } else {
            unless_empty(read)
        }
    } else if s[i] == '.' {
        unless_empty(read) + steps_from(s, i + 1, seq![])
    } else if s[i] == '[' {
        let (text, next) = bracket_text(s, i + 1, seq![], None);
        if i < next <= s.len() {
            unless_empty(read) + unless_empty(text::trimmed(text)) + steps_from(s, next, seq![])
        } else {
            seq![]
        }
    } else {
        steps_from(s, i + 1, read.push(s[i]))
    }
}

fn read_bracket(chars: &[char], from: usize) -> (r: (String, usize))
    requires
        from <= chars@.len(),
    ensures
        r.0@ == bracket_text(chars@, from as int, seq![], None).0,
        r.1 == bracket_text(chars@, from as int, seq![], None).1,
        from <= r.1 <= chars@.len(),
{
    let mut read = String::new();
    let mut quote: Option<char> = None;
    let mut i: usize = from;
    proof {
        lemma_bracket_end(chars@, from as int, seq![], None);
        assert(read@ =~= seq![]);
    }
    while i < chars.len()
        invariant
            from <= i <= chars@.len(),
            bracket_text(chars@, i as int, read@, quote) == bracket_text(
                chars@,
                from as int,
                seq![],
                None,
            ),
        decreases chars@.len() - i,
    {
        let c = chars[i];
        match quote {
            Some(q) => {
                if c == '\\' {
                    if i + 1 < chars.len() {
                        read.push(chars[i + 1]);
                        i += 2;
                    } else {
                        return (read, i + 1);
                    }
                } else if c == q {
                    quote = None;
                    i += 1;
                } else {
                    read.push(c);
                    i += 1;
                }
            },
            None => {
                if c == '"' || c == '\'' {
                    quote = Some(c);
                    i += 1;
                } else if c == ']' {
                    return (read, i + 1);
                } else {
                    read.push(c);
                    i += 1;
                }
            },
        }
    }
    (read, i)
}

fn push_unless_empty(segments: &mut Vec<String>, s: String)
    ensures
        search::texts(final(segments)@) == search::texts(old(segments)@) + unless_empty(s@),
{
    let ghost before = segments@;
    if !s.as_str().is_empty() {
        proof {
            search::lemma_texts_push(segments@, s);
        }
        segments.push(s);
    }
    proof {
        assert(search::texts(segments@) =~= search::texts(before) + unless_empty(s@));
    }
}

/// The steps of a path.
pub fn json_path_segments(path: &str) -> (r: Vec<String>)
    ensures
        search::texts(r@) == steps_from(path@, 0, seq![]),
{
    let chars = chars_of(path);
    let mut segments: Vec<String> = Vec::new();
    let mut current = String::new();
    let mut i: usize = 0;
    proof {
        assert(current@ =~= seq![]);
        assert(search::texts(segments@) + steps_from(path@, 0, seq![])
            =~= steps_from(path@, 0, seq![]));
    }
    while i < chars.len()
        invariant
            chars@ == path@,
            i <= chars@.len(),
            search::texts(segments@) + steps_from(path@, i as int, current@) == steps_from(
                path@,
                0,
                seq![],
            ),
        decreases chars@.len() - i,
    {
        let ghost before = search::texts(segments@);
        let ghost read = current@;
        let c = chars[i];
        if c == '\\' {
            if i + 1 < chars.len() {
                current.push(chars[i + 1]);
                i += 2;
            } else {
                i += 1;
            }
        } else if c == '.' {
            push_unless_empty(&mut segments, current);
            current = String::new();
            proof {
                assert(current@ =~= seq![]);
                assert(before + unless_empty(read) + steps_from(path@, i + 1, seq![]) =~= before
                    + (unless_empty(read) + steps_from(path@, i + 1, seq![])));
            }
            i += 1;
        } else if c == '[' {
            push_unless_empty(&mut segments, current);
            current = String::new();
            let (text, next) = read_bracket(&chars, i + 1);
            let step = trim(text.as_str());
            let ghost inner = step@;
            push_unless_empty(&mut segments, step);
            proof {
                assert(current@ =~= seq![]);
                let rest = steps_from(path@, next as int, seq![]);
                assert(before + unless_empty(read) + unless_empty(inner) + rest =~= before + (
                unless_empty(read) + unless_empty(inner) + rest));
            }
            i = next;
        } else {
            current.push(c);
            i += 1;
        }
    }
    push_unless_empty(&mut segments, current);
    segments
}

/// What a path leads to, as text. A fraction is as JSON writes it.
pub enum PathText {
    Text(String),
    Fraction(String),
}

pub enum PathTextView {
    Text(Seq<char>),
    Fraction(Seq<char>),
}

impl View for PathText {
    type V = PathTextView;

    open spec fn view(&self) -> PathTextView {
        match *self {
            PathText::Text(s) => PathTextView::Text(s@),
            PathText::Fraction(s) => PathTextView::Fraction(s@),
        }
    }
}

/// A plain value as text.
pub open spec fn plain_text(value: Json) -> Option<PathTextView> {
    match value {
        Json::Text(s) => Some(PathTextView::Text(s@)),
        Json::Unsigned(n) => Some(PathTextView::Text(decimal::decimal(n as nat))),
        Json::Negative(n) => Some(
            PathTextView::Text(
                if n < 0 {
                    "-"@ + decimal::decimal((-n) as nat)
                } else {
                    decimal::decimal(n as nat)
                },
            ),
        ),
        Json::Float(s) => Some(PathTextView::Fraction(s@)),
        Json::Bool(b) => Some(
            PathTextView::Text(
                if b {
                    "true"@
                } else {
                    "false"@
                },
            ),
        ),
        _ => None,
    }
}

/// Where one step of a path leads: to an item of a list, by its number, or to a
/// member of an object.
pub open spec fn stepped(value: Json, step: Seq<char>) -> Option<Json> {
    match (decimal::parsed_u64(step), json::as_list(Some(value))) {
        (Some(n), Some(items)) => if n < items.len() {
            Some(items[n as int])
        } else {
            None
        },
        _ => json::member(value, step),
    }
}

/// What the steps of a path from the one at `k` on lead to, as text. The step
/// `#` gives the length of a list.
pub open spec fn path_text(value: Json, steps: Seq<Seq<char>>, k: int) -> Option<PathTextView>
    decreases steps.len() - k,
{
    if k >= steps.len() {
        plain_text(value)
    } else if steps[k] == "#"@ {
        match json::as_list(Some(value)) {
            Some(items) => Some(PathTextView::Text(decimal::decimal(items.len()))),
            None => None,
        }
    } else {
        match stepped(value, steps[k]) {
            Some(next) => path_text(next, steps, k + 1),
            None => None,
        }
    }
}

fn show_plain(value: &Json) -> (r: Option<PathText>)
    ensures
        match r {
            Some(t) => plain_text(*value) == Some(t@),
            None => plain_text(*value) is None,
        },
{
    match value {
        Json::Text(s) => Some(PathText::Text(s.as_str().to_owned())),
        Json::Unsigned(n) => Some(PathText::Text(to_decimal(*n))),
        Json::Negative(n) => {
            if *n < 0 {
                let magnitude: u64 = (-(*n as i128)) as u64;
                let digits = to_decimal(magnitude);
                Some(PathText::Text(concat2("-", digits.as_str())))
            } else {
                Some(PathText::Text(to_decimal(*n as u64)))
            }
        },
        Json::Float(s) => Some(PathText::Fraction(s.as_str().to_owned())),
        Json::Bool(b) => {
            if *b {
                Some(PathText::Text("true".to_owned()))
            } else {
                Some(PathText::Text("false".to_owned()))
            }
        },
        _ => None,
    }
}

fn step_into<'a>(value: &'a Json, step: &str) -> (r: Option<&'a Json>)
    ensures
        match r {
            Some(v) => stepped(*value, step@) == Some(*v),
            None => stepped(*value, step@) is None,
        },
{
    match value {
        Json::List(items) => match parse_u64(step) {
            Some(n) => {
                if n < items.len() as u64 {
                    Some(&items[n as usize])
                } else {
                    None
                }
            },
            None => None,
        },
        _ => value.get(step),
    }
}

/// What a path leads to in `value`, as text.
pub fn json_path_string(value: &Json, path: &str) -> (r: Option<PathText>)
    ensures
        match r {
            Some(t) => path_text(*value, steps_from(path@, 0, seq![]), 0) == Some(t@),
            None => path_text(*value, steps_from(path@, 0, seq![]), 0) is None,
        },
{
    let segments = json_path_segments(path);
    let ghost steps = steps_from(path@, 0, seq![]);
    let mut current: &Json = value;
    let mut k: usize = 0;
    while k < segments.len()
        invariant
            k <= segments@.len(),
            steps == search::texts(segments@),
            steps == steps_from(path@, 0, seq![]),
            path_text(*current, steps, k as int) == path_text(*value, steps, 0),
        decreases segments@.len() - k,
    {
        proof {
            assert(steps[k as int] == segments@[k as int]@);
        }
        if same(segments[k].as_str(), "#") {
            return match current {
                Json::List(items) => Some(PathText::Text(to_decimal(items.len() as u64))),
                _ => None,
            };
        }
        match step_into(current, segments[k].as_str()) {
            Some(next) => {
                current = next;
            },
            None => {
                return None;
            },
        }
        k += 1;
    }
    show_plain(current)
}

/// Whether a text is a plain step of a path: not empty, and without dots, brackets and
/// backslashes.
pub open spec fn is_plain_step(s: Seq<char>) -> bool {
    s.len() > 0 && forall|i: int|
        0 <= i < s.len() ==> #[trigger] s[i] != '.' && s[i] != '[' && s[i] != '\\'
}

proof fn lemma_plain_run(s: Seq<char>, i: int, read: Seq<char>, step: Seq<char>)
    requires
        0 <= i,
        i + step.len() <= s.len(),
        s.subrange(i, i + step.len()) == step,
        forall|k: int| 0 <= k < step.len() ==> #[trigger] step[k] != '.' && step[k] != '['
            && step[k] != '\\',
    ensures
        steps_from(s, i, read) == steps_from(s, i + step.len(), read + step),
    decreases step.len(),
{
    if step.len() > 0 {
        let rest = step.drop_first();
        assert(s.subrange(i, i + step.len())[0] == s[i]);
        assert(step[0] == s[i]);
        assert(s.subrange(i + 1, i + 1 + rest.len()) =~= rest) by {
            assert forall|k: int| 0 <= k < rest.len() implies s[i + 1 + k] == rest[k] by {
                assert(s.subrange(i, i + step.len())[k + 1] == step[k + 1]);
            }
        }
        assert forall|k: int| 0 <= k < rest.len() implies #[trigger] rest[k] != '.' && rest[k]
            != '[' && rest[k] != '\\' by {
            assert(rest[k] == step[k + 1]);
        }
        lemma_plain_run(s, i + 1, read.push(s[i]), rest);
        assert(read.push(s[i]) + rest =~= read + step);
    } else {
        assert(read + step =~= read);
    }
}

/// Plain steps with dots between them are the steps of a path, from the first to the
/// last.
pub proof fn dots_part_steps(steps: Seq<Seq<char>>)
    requires
        steps.len() > 0,
        forall|i: int| 0 <= i < steps.len() ==> is_plain_step(#[trigger] steps[i]),
    ensures
        steps_from(search::joined(steps, "."@), 0, seq![]) == steps,
{
    reveal_strlit(".");
    assert("."@ =~= seq!['.']);
    let s = search::joined(steps, "."@);
    assert(s.skip(0) =~= s);
    lemma_dots(s, 0, steps);
}

proof fn lemma_dots(s: Seq<char>, i: int, steps: Seq<Seq<char>>)
    requires
        0 <= i <= s.len(),
        steps.len() > 0,
        forall|k: int| 0 <= k < steps.len() ==> is_plain_step(#[trigger] steps[k]),
        s.skip(i) == search::joined(steps, seq!['.']),
    ensures
        steps_from(s, i, seq![]) == steps,
    decreases steps.len(),
{
    let first = steps[0];
    assert(is_plain_step(steps[0]));
    let rest = steps.drop_first();
    let tail = s.skip(i);
    if rest.len() == 0 {
        assert(tail == first);
        assert(s.subrange(i, i + first.len()) =~= first);
        lemma_plain_run(s, i, seq![], first);
        assert(Seq::<char>::empty() + first =~= first);
        assert(steps_from(s, i + first.len(), first) =~= seq![first]);
        assert(steps =~= seq![first]);
    } else {
        assert(steps =~= seq![first] + rest);
        search::lemma_joined_front(first, rest, seq!['.']);
        assert(s.subrange(i, i + first.len()) =~= tail.take(first.len() as int));
        assert(tail.take(first.len() as int) =~= first);
        lemma_plain_run(s, i, seq![], first);
        assert(Seq::<char>::empty() + first =~= first);
        let n = i + first.len();
        assert(s[n] == tail[first.len() as int]);
        assert(tail[first.len() as int] == '.');
        assert(s.skip(n + 1) =~= tail.skip(first.len() as int + 1));
        assert(tail.skip(first.len() as int + 1) =~= search::joined(rest, seq!['.']));
        assert forall|k: int| 0 <= k < rest.len() implies is_plain_step(#[trigger] rest[k]) by {
            assert(rest[k] == steps[k + 1]);
        }
        lemma_dots(s, n + 1, rest);
        assert(steps_from(s, n, first) =~= seq![first] + rest);
    }
}

/// A step leads to the member of an object by its name and to the item of a list by its
/// number; `#` tells how many items a list has. Where there is nothing the path ends.
pub proof fn steps_lead_to_members_and_items(value: Json, step: Seq<char>, n: u64)
    requires
        step != "#"@,
        decimal::decimal(n as nat) != "#"@,
    ensures
        value matches Json::Object(entries) ==> path_text(value, seq![step], 0) == match json::member(
            value,
            step,
        ) {
            Some(v) => plain_text(v),
            None => None,
        },
        value matches Json::List(items) ==> {
            &&& n < items@.len() ==> path_text(value, seq![decimal::decimal(n as nat)], 0)
                == plain_text(items@[n as int])
            &&& n >= items@.len() ==> path_text(value, seq![decimal::decimal(n as nat)], 0) is None
            &&& path_text(value, seq!["#"@], 0) == Some(
                PathTextView::Text(decimal::decimal(items@.len())),
            )
        },
        plain_text(Json::Unsigned(n)) == Some(PathTextView::Text(decimal::decimal(n as nat))),
        plain_text(value) is None <==> value is Null || value is List || value is Object,
{
    decimal::decimal_reads_back(n);
    let a = seq![step];
    let b = seq![decimal::decimal(n as nat)];
    let c = seq!["#"@];
    if let Json::Object(entries) = value {
        match stepped(value, step) {
            Some(next) => {
                assert(path_text(next, a, 1) == plain_text(next));
            },
            None => {},
        }
        assert(a[0] == step);
    }
    if let Json::List(items) = value {
        assert(b[0] == decimal::decimal(n as nat));
        assert(c[0] == "#"@);
        if n < items@.len() {
            assert(path_text(items@[n as int], b, 1) == plain_text(items@[n as int]));
        }
    }
}

/// What is in brackets is a step, whatever dots it holds.
pub proof fn brackets_hold_a_step(inner: Seq<char>)
    requires
        text::trimmed(inner) == inner,
        inner.len() > 0,
        forall|i: int|
            0 <= i < inner.len() ==> #[trigger] inner[i] != ']' && inner[i] != '"' && inner[i]
                != '\'',
    ensures
        steps_from(seq!['['] + inner + seq![']'], 0, seq![]) == seq![inner],
{
    let s = seq!['['] + inner + seq![']'];
    assert(s.skip(1) =~= inner + seq![']']);
    lemma_bracket(s, 1, seq![], inner);
    assert(Seq::<char>::empty() + inner =~= inner);
    assert(s[0] == '[');
    assert(steps_from(s, s.len() as int, seq![]) =~= seq![]);
    assert(steps_from(s, 0, seq![]) =~= seq![inner]);
}

proof fn lemma_bracket(s: Seq<char>, i: int, read: Seq<char>, inner: Seq<char>)
    requires
        0 <= i,
        s.skip(i) == inner + seq![']'],
        forall|k: int|
            0 <= k < inner.len() ==> #[trigger] inner[k] != ']' && inner[k] != '"' && inner[k]
                != '\'',
        i <= s.len(),
    ensures
        bracket_text(s, i, read, None) == (read + inner, s.len() as int),
    decreases inner.len(),
{
    let t = s.skip(i);
    assert(t.len() == inner.len() + 1);
    assert(t[0] == s[i]);
    if inner.len() > 0 {
        let rest = inner.drop_first();
        assert(s[i] == inner[0]);
        assert(s.skip(i + 1) =~= t.skip(1));
        assert(t.skip(1) =~= rest + seq![']']);
        lemma_bracket(s, i + 1, read.push(s[i]), rest);
        assert(read.push(s[i]) + rest =~= read + inner);
    } else {
        assert(t =~= seq![']']);
        assert(read + inner =~= read);
    }
}

} // verus!
