//! Looking for text inside text: splitting, joining and replacing.
use vstd::prelude::*;

use crate::text;
use crate::text::{chars_of, string_of_range, trim};

verus! {

/// Where `c` first occurs in `s` from position `from` on, or the length of `s`.
pub open spec fn index_of_char(s: Seq<char>, c: char, from: int) -> int
    decreases s.len() - from,
{
    if from >= s.len() {
        s.len() as int
    } else if s[from] == c {
        from
    } else {
        index_of_char(s, c, from + 1)
    }
}

pub proof fn lemma_index_of_char(s: Seq<char>, c: char, from: int)
    requires
        0 <= from <= s.len(),
    ensures
        from <= index_of_char(s, c, from) <= s.len(),
        index_of_char(s, c, from) < s.len() ==> s[index_of_char(s, c, from)] == c,
        forall|k: int| from <= k < index_of_char(s, c, from) ==> s[k] != c,
    decreases s.len() - from,
{
    if from < s.len() && s[from] != c {
        lemma_index_of_char(s, c, from + 1);
    }
}

/// Where `c` first occurs in `chars` from `from` on, or the length.
pub fn find_char(chars: &[char], c: char, from: usize) -> (r: usize)
    requires
        from <= chars@.len(),
    ensures
        r == index_of_char(chars@, c, from as int),
        from <= r <= chars@.len(),
        r < chars@.len() ==> chars@[r as int] == c,
        forall|k: int| from <= k < r ==> chars@[k] != c,
{
    let mut i: usize = from;
    while i < chars.len() && chars[i] != c
        invariant
            from <= i <= chars@.len(),
            index_of_char(chars@, c, i as int) == index_of_char(chars@, c, from as int),
            forall|k: int| from <= k < i ==> chars@[k] != c,
        decreases chars@.len() - i,
    {
        i += 1;
    }
    i
}

/// The pieces of `s` between the occurrences of `c`, of which there is always
/// one more than there are occurrences.
pub open spec fn split_on(s: Seq<char>, c: char) -> Seq<Seq<char>>
    decreases s.len(),
{
    let i = index_of_char(s, c, 0);
    if 0 <= i < s.len() {
        seq![s.take(i)] + split_on(s.skip(i + 1), c)
    } else {
        seq![s]
    }
}

/// The texts that `v` holds.
pub open spec fn texts(v: Seq<String>) -> Seq<Seq<char>> {
    v.map_values(|s: String| s@)
}

pub proof fn lemma_texts_push(v: Seq<String>, s: String)
    ensures
        texts(v.push(s)) == texts(v).push(s@),
{
    assert(texts(v.push(s)) =~= texts(v).push(s@));
}

proof fn lemma_index_of_char_skip(s: Seq<char>, c: char, from: int, k: int)
    requires
        0 <= from,
        0 <= k,
        from + k <= s.len(),
    ensures
        index_of_char(s.skip(from), c, k) == index_of_char(s, c, from + k) - from,
    decreases s.len() - from - k,
{
    if from + k < s.len() && s[from + k] != c {
        lemma_index_of_char_skip(s, c, from, k + 1);
    }
}

/// The pieces of `s` between the occurrences of `c`.
pub fn split(s: &str, c: char) -> (r: Vec<String>)
    ensures
        texts(r@) == split_on(s@, c),
{
    let chars = chars_of(s);
    let mut out: Vec<String> = Vec::new();
    let mut from: usize = 0;
    let mut i: usize = find_char(&chars, c, 0);
    proof {
        assert(chars@.skip(0) =~= s@);
        assert(texts(out@) + split_on(s@, c) =~= split_on(s@, c));
    }
    while i < chars.len()
        invariant
            from <= i <= chars@.len(),
            i == index_of_char(chars@, c, from as int),
            texts(out@) + split_on(chars@.skip(from as int), c) == split_on(s@, c),
        decreases chars@.len() - i,
    {
        let piece = string_of_range(&chars, from, i);
        proof {
            lemma_index_of_char_skip(chars@, c, from as int, 0);
            let rest = chars@.skip(from as int);
            assert(rest.take(i - from) =~= piece@);
            assert(rest.skip(i - from + 1) =~= chars@.skip(i + 1));
            lemma_texts_push(out@, piece);
            assert(texts(out@).push(piece@) + split_on(chars@.skip(i + 1), c) =~= texts(out@) + (
            seq![piece@] + split_on(chars@.skip(i + 1), c)));
        }
        out.push(piece);
        from = i + 1;
        i = find_char(&chars, c, from);
    }
    let last = string_of_range(&chars, from, chars.len());
    proof {
        lemma_index_of_char_skip(chars@, c, from as int, 0);
        assert(chars@.skip(from as int) =~= last@);
        lemma_texts_push(out@, last);
        assert(texts(out@).push(last@) =~= texts(out@) + seq![last@]);
    }
    out.push(last);
    out
}

/// Those of `pieces` that are not empty once the white space at their ends is
/// gone.
pub open spec fn tidy(pieces: Seq<Seq<char>>) -> Seq<Seq<char>>
    decreases pieces.len(),
{
    if pieces.len() == 0 {
        seq![]
    } else {
        let before = tidy(pieces.drop_last());
        let piece = text::trimmed(pieces.last());
        if piece.len() > 0 {
            before.push(piece)
        } else {
            before
        }
    }
}

/// The pieces of `s` between the occurrences of `c`, without white space at
/// their ends and without the empty ones.
pub fn split_tidy(s: &str, c: char) -> (r: Vec<String>)
    ensures
        texts(r@) == tidy(split_on(s@, c)),
{
    let pieces = split(s, c);
    let mut out: Vec<String> = Vec::new();
    let mut i: usize = 0;
    proof {
        assert(texts(out@) =~= tidy(texts(pieces@).take(0)));
    }
    while i < pieces.len()
        invariant
            i <= pieces@.len(),
            texts(out@) == tidy(texts(pieces@).take(i as int)),
        decreases pieces@.len() - i,
    {
        proof {
            assert(texts(pieces@).take(i + 1).drop_last() =~= texts(pieces@).take(i as int));
            assert(texts(pieces@).take(i + 1).last() == pieces@[i as int]@);
        }
        let piece = trim(pieces[i].as_str());
        if !piece.as_str().is_empty() {
            proof {
                lemma_texts_push(out@, piece);
            }
            out.push(piece);
        }
        i += 1;
    }
    proof {
        assert(texts(pieces@).take(pieces@.len() as int) =~= texts(pieces@));
    }
    out
}

/// `parts` one after the other, with `sep` between each two.
pub open spec fn joined(parts: Seq<Seq<char>>, sep: Seq<char>) -> Seq<char>
    decreases parts.len(),
{
    if parts.len() == 0 {
        seq![]
    } else if parts.len() == 1 {
        parts[0]
    } else {
        joined(parts.drop_last(), sep) + sep + parts.last()
    }
}

/// The texts of `parts` with `sep` between each two.
pub fn join(parts: &[String], sep: &str) -> (r: String)
    ensures
        r@ == joined(texts(parts@), sep@),
{
    let mut out = String::new();
    let mut i: usize = 0;
    while i < parts.len()
        invariant
            i <= parts@.len(),
            out@ == joined(texts(parts@).take(i as int), sep@),
        decreases parts@.len() - i,
    {
        proof {
            assert(texts(parts@).take(i + 1).drop_last() =~= texts(parts@).take(i as int));
        }
        if i > 0 {
            out.append(sep);
        } else {
            proof {
                assert(out@ + parts@[0]@ =~= parts@[0]@);
            }
        }
        out.append(parts[i].as_str());
        i += 1;
    }
    proof {
        assert(texts(parts@).take(parts@.len() as int) =~= texts(parts@));
    }
    out
}

/// Whether `pat` stands in `s` at position `at`.
pub open spec fn occurs_at(s: Seq<char>, pat: Seq<char>, at: int) -> bool {
    0 <= at && at + pat.len() <= s.len() && s.subrange(at, at + pat.len()) == pat
}

/// Whether `pat` stands somewhere in `s`.
pub open spec fn occurs(s: Seq<char>, pat: Seq<char>) -> bool {
    exists|at: int| occurs_at(s, pat, at)
}

fn matches_at(chars: &[char], pat: &[char], at: usize) -> (r: bool)
    requires
        at <= chars@.len(),
    ensures
        r == occurs_at(chars@, pat@, at as int),
{
    if pat.len() > chars.len() - at {
        return false;
    }
    let mut i: usize = 0;
    while i < pat.len()
        invariant
            i <= pat@.len(),
            at + pat@.len() <= chars@.len(),
            chars@.len() <= usize::MAX,
            forall|k: int| 0 <= k < i ==> chars@[at + k] == pat@[k],
        decreases pat@.len() - i,
    {
        if chars[at + i] != pat[i] {
            proof {
                assert(chars@.subrange(at as int, at + pat@.len())[i as int] == chars@[at + i]);
            }
            return false;
        }
        i += 1;
    }
    proof {
        assert(chars@.subrange(at as int, at + pat@.len()) =~= pat@);
    }
    true
}

/// Whether `pat` stands somewhere in the text `s`.
pub fn contains(s: &str, pat: &str) -> (r: bool)
    ensures
        r == occurs(s@, pat@),
{
    let chars = chars_of(s);
    let p = chars_of(pat);
    let mut i: usize = 0;
    while i <= chars.len()
        invariant
            i <= chars@.len() + 1,
            chars@ == s@,
            p@ == pat@,
            forall|k: int| 0 <= k < i ==> !occurs_at(s@, pat@, k),
        decreases chars@.len() + 1 - i,
    {
        if matches_at(&chars, &p, i) {
            return true;
        }
        if i == chars.len() {
            proof {
                assert forall|k: int| !occurs_at(s@, pat@, k) by {
                    if 0 <= k <= s@.len() {
                    } else {
                    }
                }
            }
            return false;
        }
        i += 1;
    }
    false
}

/// `s` with every occurrence of `pat` (found from the left, none inside
/// another) replaced by `by`; an empty `pat` occurs before every character and
/// at the end.
pub open spec fn replaced(s: Seq<char>, pat: Seq<char>, by: Seq<char>) -> Seq<char>
    decreases s.len(),
{
    if pat.len() == 0 {
        if s.len() == 0 {
            by
        } else {
            by + seq![s[0]] + replaced(s.skip(1), pat, by)
        }
    } else if s.len() == 0 {
        s
    } else if occurs_at(s, pat, 0) {
        by + replaced(s.skip(pat.len() as int), pat, by)
    } else {
        seq![s[0]] + replaced(s.skip(1), pat, by)
    }
}

/// The text `s` with `by` before every character and at the end.
fn interleave(s: &str, by: &str) -> (r: String)
    ensures
        r@ == replaced(s@, seq![], by@),
{
    let chars = chars_of(s);
    let mut out = String::new();
    let mut i: usize = 0;
    proof {
        assert(chars@.skip(0) =~= s@);
        assert(out@ + replaced(s@, seq![], by@) =~= replaced(s@, seq![], by@));
    }
    while i < chars.len()
        invariant
            i <= chars@.len(),
            out@ + replaced(chars@.skip(i as int), seq![], by@) == replaced(s@, seq![], by@),
        decreases chars@.len() - i,
    {
        proof {
            let rest = chars@.skip(i as int);
            assert(rest.skip(1) =~= chars@.skip(i + 1));
            let tail = replaced(chars@.skip(i + 1), seq![], by@);
            assert(out@ + (by@ + seq![rest[0]] + tail) =~= (out@ + by@).push(rest[0]) + tail);
        }
        out.append(by);
        out.push(chars[i]);
        i += 1;
    }
    out.append(by);
    out
}

/// The text `s` with every occurrence of `pat` replaced by `by`.
pub fn replace(s: &str, pat: &str, by: &str) -> (r: String)
    ensures
        r@ == replaced(s@, pat@, by@),
{
    let chars = chars_of(s);
    let p = chars_of(pat);
    if p.len() == 0 {
        proof {
            assert(pat@ =~= seq![]);
        }
        return interleave(s, by);
    }
    let mut out = String::new();
    let mut i: usize = 0;
    proof {
        assert(chars@.skip(0) =~= s@);
        assert(out@ + replaced(s@, pat@, by@) =~= replaced(s@, pat@, by@));
    }
    while i < chars.len()
        invariant
            i <= chars@.len(),
            p@ == pat@,
            pat@.len() > 0,
            out@ + replaced(chars@.skip(i as int), pat@, by@) == replaced(s@, pat@, by@),
        decreases chars@.len() - i,
    {
        let ghost rest = chars@.skip(i as int);
        if matches_at(&chars, &p, i) {
            proof {
                assert(rest.subrange(0, pat@.len() as int) =~= chars@.subrange(
                    i as int,
                    i + pat@.len(),
                ));
                assert(rest.skip(pat@.len() as int) =~= chars@.skip(i + pat@.len()));
                let tail = replaced(chars@.skip(i + pat@.len()), pat@, by@);
                assert(out@ + (by@ + tail) =~= (out@ + by@) + tail);
            }
            out.append(by);
            i += p.len();
        } else {
            proof {
                if occurs_at(rest, pat@, 0) {
                    assert(rest.subrange(0, pat@.len() as int) =~= chars@.subrange(
                        i as int,
                        i + pat@.len(),
                    ));
                }
                assert(rest.skip(1) =~= chars@.skip(i + 1));
                let tail = replaced(chars@.skip(i + 1), pat@, by@);
                assert(out@ + (seq![rest[0]] + tail) =~= out@.push(rest[0]) + tail);
            }
            out.push(chars[i]);
            i += 1;
        }
    }
    proof {
        assert(chars@.skip(i as int).len() == 0);
        assert(out@ + chars@.skip(i as int) =~= out@);
    }
    out
}

/// No piece holds the character at which a text is split.
pub proof fn pieces_hold_no_separator(s: Seq<char>, c: char, i: int, k: int)
    requires
        0 <= i < split_on(s, c).len(),
        0 <= k < split_on(s, c)[i].len(),
    ensures
        split_on(s, c)[i][k] != c,
    decreases s.len(),
{
    lemma_index_of_char(s, c, 0);
    let at = index_of_char(s, c, 0);
    if at < s.len() && i > 0 {
        pieces_hold_no_separator(s.skip(at + 1), c, i - 1, k);
    }
}

pub proof fn lemma_joined_front(first: Seq<char>, rest: Seq<Seq<char>>, sep: Seq<char>)
    requires
        rest.len() > 0,
    ensures
        joined(seq![first] + rest, sep) == first + sep + joined(rest, sep),
    decreases rest.len(),
{
    let all = seq![first] + rest;
    assert(all.drop_last() =~= seq![first] + rest.drop_last());
    assert(all.last() == rest.last());
    if rest.len() == 1 {
        assert(all.drop_last() =~= seq![first]);
        assert(joined(all.drop_last(), sep) == first);
        assert(joined(all, sep) =~= first + sep + rest[0]);
    } else {
        lemma_joined_front(first, rest.drop_last(), sep);
        assert(joined(all, sep) =~= first + sep + joined(rest, sep));
    }
}

/// The pieces of a text, joined by the character at which it was split, are the
/// text again.
pub proof fn joining_undoes_splitting(s: Seq<char>, c: char)
    ensures
        joined(split_on(s, c), seq![c]) == s,
        split_on(s, c).len() >= 1,
    decreases s.len(),
{
    lemma_index_of_char(s, c, 0);
    let i = index_of_char(s, c, 0);
    if i < s.len() {
        let rest = s.skip(i + 1);
        joining_undoes_splitting(rest, c);
        lemma_joined_front(s.take(i), split_on(rest, c), seq![c]);
        assert(s =~= s.take(i) + seq![c] + rest);
    }
}

/// Of pieces those are kept that are not blank, without white space at their ends,
/// in their order.
pub proof fn tidy_pieces_are_not_blank(pieces: Seq<Seq<char>>)
    ensures
        tidy(pieces) == pieces.map_values(|p: Seq<char>| text::trimmed(p)).filter(
            |p: Seq<char>| p.len() > 0,
        ),
    decreases pieces.len(),
{
    reveal(Seq::filter);
    if pieces.len() > 0 {
        tidy_pieces_are_not_blank(pieces.drop_last());
        assert(pieces.map_values(|p: Seq<char>| text::trimmed(p)).drop_last()
            =~= pieces.drop_last().map_values(|p: Seq<char>| text::trimmed(p)));
    }
}

/// A text in which a pattern does not stand is kept.
pub proof fn absent_patterns_are_not_replaced(s: Seq<char>, pat: Seq<char>, by: Seq<char>)
    requires
        pat.len() > 0,
        !occurs(s, pat),
    ensures
        replaced(s, pat, by) == s,
    decreases s.len(),
{
    if s.len() > 0 {
        assert(!occurs_at(s, pat, 0));
        let rest = s.skip(1);
        assert forall|at: int| !occurs_at(rest, pat, at) by {
            if occurs_at(rest, pat, at) {
                assert(s.subrange(at + 1, at + 1 + pat.len()) =~= rest.subrange(
                    at,
                    at + pat.len(),
                ));
                assert(occurs_at(s, pat, at + 1));
            }
        }
        absent_patterns_are_not_replaced(rest, pat, by);
        assert(seq![s[0]] + rest =~= s);
    }
}

/// A pattern that begins with a character which the text before it has not is
/// replaced, what stands before it is kept, and what stands behind it is looked
/// through in turn.
pub proof fn patterns_are_replaced_where_they_stand(
    before: Seq<char>,
    pat: Seq<char>,
    behind: Seq<char>,
    by: Seq<char>,
)
    requires
        pat.len() > 0,
        forall|i: int| 0 <= i < before.len() ==> #[trigger] before[i] != pat[0],
    ensures
        replaced(before + pat + behind, pat, by) == before + by + replaced(behind, pat, by),
    decreases before.len(),
{
    let s = before + pat + behind;
    if before.len() == 0 {
        assert(s.subrange(0, pat.len() as int) =~= pat);
        assert(s.skip(pat.len() as int) =~= behind);
        assert(before + by + replaced(behind, pat, by) =~= by + replaced(behind, pat, by));
    } else {
        if occurs_at(s, pat, 0) {
            assert(s.subrange(0, pat.len() as int)[0] == s[0]);
            assert(s[0] == before[0]);
        }
        let rest = before.skip(1);
        assert(s.skip(1) =~= rest + pat + behind);
        patterns_are_replaced_where_they_stand(rest, pat, behind, by);
        assert(seq![s[0]] + (rest + by + replaced(behind, pat, by)) =~= before + by + replaced(
            behind,
            pat,
            by,
        ));
    }
}

/// Whether a text has no `#`.
pub open spec fn has_no_hash(s: Seq<char>) -> bool {
    forall|i: int| 0 <= i < s.len() ==> #[trigger] s[i] != '#'
}

/// Whether a text is a mark: a name between two `#`.
pub open spec fn is_mark(s: Seq<char>) -> bool {
    &&& s.len() >= 3
    &&& s[0] == '#'
    &&& s[s.len() - 1] == '#'
    &&& forall|i: int| 0 < i < s.len() - 1 ==> #[trigger] s[i] != '#'
}

/// In a text with one mark no other stands, and in one without `#` none does.
pub proof fn one_mark_is_no_other(
    before: Seq<char>,
    mark: Seq<char>,
    behind: Seq<char>,
    other: Seq<char>,
)
    requires
        is_mark(mark),
        is_mark(other),
        mark != other,
        has_no_hash(before),
        has_no_hash(behind),
    ensures
        !occurs(before + mark + behind, other),
        !occurs(before, other),
{
    let s = before + mark + behind;
    assert forall|at: int| !occurs_at(s, other, at) by {
        if occurs_at(s, other, at) {
            let n = other.len() as int;
            let piece = s.subrange(at, at + n);
            assert(piece[0] == '#' && piece[n - 1] == '#');
            assert(s[at] == '#' && s[at + n - 1] == '#');
            let f = before.len() as int;
            let m = mark.len() as int;
            assert forall|i: int| 0 <= i < s.len() && s[i] == '#' implies i == f || i == f + m
                - 1 by {
                if i < f {
                    assert(before[i] == s[i]);
                } else if i < f + m {
                    assert(mark[i - f] == s[i]);
                } else {
                    assert(behind[i - f - m] == s[i]);
                }
            }
            assert(at == f && n == m);
            assert(piece =~= mark);
        }
    }
    assert forall|at: int| !occurs_at(before, other, at) by {
        if occurs_at(before, other, at) {
            let piece = before.subrange(at, at + other.len());
            assert(piece[0] == '#');
            assert(before[at] == '#');
        }
    }
}

/// A mark in a text without any other `#` is replaced by what it stands for, and the
/// rest of the text is kept.
pub proof fn lemma_mark_is_filled(
    before: Seq<char>,
    mark: Seq<char>,
    behind: Seq<char>,
    by: Seq<char>,
)
    requires
        is_mark(mark),
        has_no_hash(before),
        has_no_hash(behind),
    ensures
        replaced(before + mark + behind, mark, by) == before + by + behind,
        occurs(before + mark + behind, mark),
{
    patterns_are_replaced_where_they_stand(before, mark, behind, by);
    let s = before + mark + behind;
    assert(s.subrange(before.len() as int, (before.len() + mark.len()) as int) =~= mark);
    assert(occurs_at(s, mark, before.len() as int));
    lemma_no_mark_in(behind, mark, by);
}

/// In a text without `#` no mark stands.
pub proof fn lemma_no_mark_in(s: Seq<char>, mark: Seq<char>, by: Seq<char>)
    requires
        is_mark(mark),
        has_no_hash(s),
    ensures
        !occurs(s, mark),
        replaced(s, mark, by) == s,
{
    assert forall|at: int| !occurs_at(s, mark, at) by {
        if occurs_at(s, mark, at) {
            assert(s.subrange(at, at + mark.len())[0] == '#');
            assert(s[at] == '#');
        }
    }
    absent_patterns_are_not_replaced(s, mark, by);
}

/// Texts without the separator that are joined by it come apart again as they were.
pub proof fn splitting_undoes_joining(parts: Seq<Seq<char>>, c: char)
    requires
        parts.len() > 0,
        forall|i: int, k: int|
            0 <= i < parts.len() && 0 <= k < parts[i].len() ==> #[trigger] parts[i][k] != c,
    ensures
        split_on(joined(parts, seq![c]), c) == parts,
    decreases parts.len(),
{
    let s = joined(parts, seq![c]);
    lemma_index_of_char(s, c, 0);
    let at = index_of_char(s, c, 0);
    if parts.len() == 1 {
        if at < s.len() {
            assert(parts[0][at] != c);
        }
        assert(split_on(s, c) =~= parts);
    } else {
        let first = parts[0];
        let rest = parts.drop_first();
        assert(parts =~= seq![first] + rest);
        lemma_joined_front(first, rest, seq![c]);
        assert forall|i: int, k: int|
            0 <= i < rest.len() && 0 <= k < rest[i].len() implies #[trigger] rest[i][k] != c by {
            assert(rest[i] == parts[i + 1]);
            assert(parts[i + 1][k] != c);
        }
        splitting_undoes_joining(rest, c);
        assert(s[first.len() as int] == c);
        if at < first.len() {
            assert(s[at] == first[at]);
            assert(parts[0][at] != c);
        }
        assert(at == first.len());
        assert(s.take(at) =~= first);
        assert(s.skip(at + 1) =~= joined(rest, seq![c]));
        assert(split_on(s, c) =~= parts);
    }
}

/// Replacing one character by another changes just those characters.
pub proof fn characters_are_replaced_one_by_one(s: Seq<char>, a: char, b: char)
    ensures
        replaced(s, seq![a], seq![b]) == s.map_values(
            |c: char|
                if c == a {
                    b
                } else {
                    c
                },
        ),
    decreases s.len(),
{
    let f = |c: char|
        if c == a {
            b
        } else {
            c
        };
    if s.len() > 0 {
        characters_are_replaced_one_by_one(s.skip(1), a, b);
        assert(s.subrange(0, 1) =~= seq![s[0]]);
        assert(seq![s[0]][0] == s[0] && seq![a][0] == a);
        assert(occurs_at(s, seq![a], 0) <==> s[0] == a);
        assert(replaced(s, seq![a], seq![b]) =~= s.map_values(f));
    } else {
        assert(replaced(s, seq![a], seq![b]) =~= s.map_values(f));
    }
}

} // verus!
