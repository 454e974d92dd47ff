//! Text: what the rest of the library needs of strings, stated over the
//! sequence of characters that a string holds.
use vstd::prelude::*;

verus! {

/// `String::push` appends one character.
pub assume_specification[ String::push ](s: &mut String, c: char)
    ensures
        final(s)@ == old(s)@.push(c),
;

/// `str`'s equality compares the text.
pub assume_specification[ <str as PartialEq<str>>::eq ](a: &str, b: &str) -> (r: bool)
    ensures
        r == (a@ == b@),
;

/// Whether the two texts are the same.
pub fn same(a: &str, b: &str) -> (r: bool)
    ensures
        r == (a@ == b@),
{
    *a == *b
}

/// The characters of `s` in order.
pub fn chars_of(s: &str) -> (r: Vec<char>)
    ensures
        r@ == s@,
{
    let mut out: Vec<char> = Vec::new();
    for c in it: s.chars()
        invariant
            out@ == it.seq().take(it.index() as int),
            it.seq() == s@,
    {
        proof {
            assert(it.seq().take(it.index() + 1) =~= it.seq().take(it.index() as int).push(c));
        }
        out.push(c);
    }
    proof {
        assert(s@.take(s@.len() as int) =~= s@);
    }
    out
}

/// The part of `chars` from `from` up to `to`, as text.
pub fn string_of_range(chars: &[char], from: usize, to: usize) -> (r: String)
    requires
        from <= to <= chars@.len(),
    ensures
        r@ == chars@.subrange(from as int, to as int),
{
    let mut out = String::new();
    let mut i: usize = from;
    while i < to
        invariant
            from <= i <= to <= chars@.len(),
            out@ == chars@.subrange(from as int, i as int),
        decreases to - i,
    {
        proof {
            assert(chars@.subrange(from as int, i + 1) =~= chars@.subrange(
                from as int,
                i as int,
            ).push(chars@[i as int]));
        }
        out.push(chars[i]);
        i += 1;
    }
    out
}

/// Whether `c` has Unicode's `White_Space` property.
pub open spec fn is_white(c: char) -> bool {
    ||| '\u{9}' <= c <= '\u{d}'
    ||| c == ' '
    ||| c == '\u{85}'
    ||| c == '\u{a0}'
    ||| c == '\u{1680}'
    ||| '\u{2000}' <= c <= '\u{200a}'
    ||| c == '\u{2028}'
    ||| c == '\u{2029}'
    ||| c == '\u{202f}'
    ||| c == '\u{205f}'
    ||| c == '\u{3000}'
}

pub fn is_white_space(c: char) -> (r: bool)
    ensures
        r == is_white(c),
{
    ('\u{9}' <= c && c <= '\u{d}') || c == ' ' || c == '\u{85}' || c == '\u{a0}' || c == '\u{1680}'
        || ('\u{2000}' <= c && c <= '\u{200a}') || c == '\u{2028}' || c == '\u{2029}' || c
        == '\u{202f}' || c == '\u{205f}' || c == '\u{3000}'
}

/// `s` without the characters of `p` at its front.
pub open spec fn strip_front(s: Seq<char>, p: spec_fn(char) -> bool) -> Seq<char>
    decreases s.len(),
{
    if s.len() > 0 && p(s.first()) {
        strip_front(s.drop_first(), p)
    } else {
        s
    }
}

/// `s` without the characters of `p` at its back.
pub open spec fn strip_back(s: Seq<char>, p: spec_fn(char) -> bool) -> Seq<char>
    decreases s.len(),
{
    if s.len() > 0 && p(s.last()) {
        strip_back(s.drop_last(), p)
    } else {
        s
    }
}

/// `s` without white space at either end.
pub open spec fn trimmed(s: Seq<char>) -> Seq<char> {
    strip_back(strip_front(s, |c: char| is_white(c)), |c: char| is_white(c))
}

/// The text `s` without white space at either end.
pub fn trim(s: &str) -> (r: String)
    ensures
        r@ == trimmed(s@),
{
    let chars = chars_of(s);
    let n: usize = chars.len();
    let mut from: usize = 0;
    let ghost p = |c: char| is_white(c);
    proof {
        assert(chars@.skip(0) =~= s@);
    }
    while from < n && is_white_space(chars[from])
        invariant
            from <= n == chars@.len(),
            chars@ == s@,
            p == (|c: char| is_white(c)),
            strip_front(chars@.skip(from as int), p) == strip_front(s@, p),
        decreases n - from,
    {
        proof {
            assert(chars@.skip(from as int).drop_first() =~= chars@.skip(from + 1));
        }
        from += 1;
    }
    let mut to: usize = n;
    proof {
        assert(chars@.skip(from as int) =~= chars@.subrange(from as int, to as int));
    }
    while to > from && is_white_space(chars[to - 1])
        invariant
            from <= to <= n == chars@.len(),
            p == (|c: char| is_white(c)),
            strip_back(chars@.subrange(from as int, to as int), p) == strip_back(
                strip_front(s@, p),
                p,
            ),
        decreases to - from,
    {
        proof {
            assert(chars@.subrange(from as int, to as int).drop_last() =~= chars@.subrange(
                from as int,
                to - 1,
            ));
        }
        to -= 1;
    }
    string_of_range(&chars, from, to)
}

/// `s` without the copies of `p` at its back.
pub open spec fn without_suffixes(s: Seq<char>, p: Seq<char>) -> Seq<char>
    decreases s.len(),
{
    if p.len() > 0 && p.is_suffix_of(s) {
        without_suffixes(s.take(s.len() - p.len()), p)
    } else {
        s
    }
}

/// The text `s` without the copies of `p` at its back.
pub fn trim_end_matches(s: &str, p: &str) -> (r: String)
    requires
        p@.len() > 0,
    ensures
        r@ == without_suffixes(s@, p@),
    decreases s@.len(),
{
    if ends_with(s, p) {
        let n: usize = s.unicode_len() - p.unicode_len();
        let rest = s.substring_char(0, n);
        proof {
            assert(rest@ =~= s@.take(s@.len() - p@.len()));
        }
        trim_end_matches(rest, p)
    } else {
        s.to_owned()
    }
}

/// Whether `s` starts with `p`.
pub fn starts_with(s: &str, p: &str) -> (r: bool)
    ensures
        r == p@.is_prefix_of(s@),
{
    let a = chars_of(s);
    let b = chars_of(p);
    if b.len() > a.len() {
        return false;
    }
    let mut i: usize = 0;
    while i < b.len()
        invariant
            i <= b@.len() <= a@.len(),
            a@ == s@,
            b@ == p@,
            a@.take(i as int) == b@.take(i as int),
        decreases b@.len() - i,
    {
        if a[i] != b[i] {
            proof {
                assert(s@.take(p@.len() as int)[i as int] == a@[i as int]);
            }
            return false;
        }
        proof {
            assert(a@.take(i + 1) =~= a@.take(i as int).push(a@[i as int]));
            assert(b@.take(i + 1) =~= b@.take(i as int).push(b@[i as int]));
        }
        i += 1;
    }
    proof {
        assert(b@.take(b@.len() as int) =~= b@);
    }
    true
}

/// Whether `s` ends with `p`.
pub fn ends_with(s: &str, p: &str) -> (r: bool)
    ensures
        r == p@.is_suffix_of(s@),
{
    let a = chars_of(s);
    let b = chars_of(p);
    if b.len() > a.len() {
        return false;
    }
    let off: usize = a.len() - b.len();
    let mut i: usize = 0;
    while i < b.len()
        invariant
            i <= b@.len(),
            off == a@.len() - b@.len(),
            a@.len() <= usize::MAX,
            a@ == s@,
            b@ == p@,
            forall|k: int| 0 <= k < i ==> a@[off + k] == b@[k],
        decreases b@.len() - i,
    {
        if a[off + i] != b[i] {
            proof {
                assert(s@.subrange(s@.len() - p@.len(), s@.len() as int)[i as int] == a@[off + i]);
            }
            return false;
        }
        i += 1;
    }
    proof {
        assert(s@.subrange(s@.len() - p@.len(), s@.len() as int) =~= p@);
    }
    true
}

/// `a` followed by `b`.
pub fn concat2(a: &str, b: &str) -> (r: String)
    ensures
        r@ == a@ + b@,
{
    let mut out = a.to_owned();
    out.append(b);
    out
}

/// `c` with an ASCII capital letter made small.
pub open spec fn lower_char(c: char) -> char {
    if 'A' <= c <= 'Z' {
        (c as u8 + 32) as u8 as char
    } else {
        c
    }
}

/// `s` with its ASCII capital letters made small.
pub open spec fn lowered(s: Seq<char>) -> Seq<char> {
    s.map_values(|c: char| lower_char(c))
}

fn ascii_lower_char(c: char) -> (r: char)
    ensures
        r == lower_char(c),
{
    if 'A' <= c && c <= 'Z' {
        (c as u8 + 32) as char
    } else {
        c
    }
}

/// The text `s` with its ASCII capital letters made small.
pub fn to_ascii_lowercase(s: &str) -> (r: String)
    ensures
        r@ == lowered(s@),
{
    let chars = chars_of(s);
    let mut out = String::new();
    let mut i: usize = 0;
    while i < chars.len()
        invariant
            i <= chars@.len(),
            out@ == lowered(chars@.take(i as int)),
        decreases chars@.len() - i,
    {
        proof {
            assert(lowered(chars@.take(i + 1)) =~= lowered(chars@.take(i as int)).push(
                lower_char(chars@[i as int]),
            ));
        }
        out.push(ascii_lower_char(chars[i]));
        i += 1;
    }
    proof {
        assert(chars@.take(chars@.len() as int) =~= chars@);
    }
    out
}

/// Whether the two texts agree when ASCII letters are compared without case.
pub fn eq_ignore_ascii_case(a: &str, b: &str) -> (r: bool)
    ensures
        r == (lowered(a@) == lowered(b@)),
{
    let x = to_ascii_lowercase(a);
    let y = to_ascii_lowercase(b);
    x == y
}

/// Trimming takes away white space at the front and at the back, as far as it goes,
/// and nothing else: what is left stands in the text from `r.0` up to `r.1`.
pub proof fn trimming_takes_white_space_at_the_ends(s: Seq<char>) -> (r: (int, int))
    ensures
        0 <= r.0 <= r.1 <= s.len(),
        trimmed(s) == s.subrange(r.0, r.1),
        forall|i: int| 0 <= i < r.0 ==> is_white(#[trigger] s[i]),
        forall|i: int| r.1 <= i < s.len() ==> is_white(#[trigger] s[i]),
        r.0 < r.1 ==> !is_white(s[r.0]) && !is_white(s[r.1 - 1]),
{
    let white = |c: char| is_white(c);
    let a = lemma_strip_front(s, white);
    let rest = s.skip(a);
    let b = lemma_strip_back(rest, white);
    assert(rest.take(b) =~= s.subrange(a, a + b));
    assert forall|i: int| a + b <= i < s.len() implies is_white(#[trigger] s[i]) by {
        assert(rest[i - a] == s[i]);
        assert(white(rest[i - a]));
    }
    assert forall|i: int| 0 <= i < a implies is_white(#[trigger] s[i]) by {
        assert(white(s[i]));
    }
    if b > 0 {
        assert(rest[0] == s[a]);
        assert(!white(rest[0]));
        assert(rest[b - 1] == s[a + b - 1]);
        assert(!white(rest[b - 1]));
    }
    (a, a + b)
}

proof fn lemma_strip_front(s: Seq<char>, p: spec_fn(char) -> bool) -> (a: int)
    ensures
        0 <= a <= s.len(),
        strip_front(s, p) == s.skip(a),
        forall|i: int| 0 <= i < a ==> p(#[trigger] s[i]),
        a < s.len() ==> !p(s[a]),
    decreases s.len(),
{
    if s.len() > 0 && p(s.first()) {
        let rest = s.drop_first();
        let a = lemma_strip_front(rest, p);
        assert(rest.skip(a) =~= s.skip(a + 1));
        assert forall|i: int| 0 <= i < a + 1 implies p(#[trigger] s[i]) by {
            if i > 0 {
                assert(rest[i - 1] == s[i]);
            }
        }
        if a < rest.len() {
            assert(rest[a] == s[a + 1]);
        }
        a + 1
    } else {
        assert(s.skip(0) =~= s);
        0
    }
}

proof fn lemma_strip_back(s: Seq<char>, p: spec_fn(char) -> bool) -> (b: int)
    ensures
        0 <= b <= s.len(),
        strip_back(s, p) == s.take(b),
        forall|i: int| b <= i < s.len() ==> p(#[trigger] s[i]),
        b > 0 ==> !p(s[b - 1]),
    decreases s.len(),
{
    if s.len() > 0 && p(s.last()) {
        let rest = s.drop_last();
        let b = lemma_strip_back(rest, p);
        assert(rest.take(b) =~= s.take(b));
        assert forall|i: int| b <= i < s.len() implies p(#[trigger] s[i]) by {
            if i < rest.len() {
                assert(rest[i] == s[i]);
            }
        }
        if b > 0 {
            assert(rest[b - 1] == s[b - 1]);
        }
        b
    } else {
        assert(s.take(s.len() as int) =~= s);
        s.len() as int
    }
}

/// Of the characters of ASCII the space and the controls from the tab to the
/// carriage return are white, and no letter, digit or sign is.
pub proof fn letters_and_signs_are_not_white(c: char)
    ensures
        is_white(' ') && is_white('\t') && is_white('\n') && is_white('\r'),
        '!' <= c <= '~' ==> !is_white(c),
{
}

/// Small letters are those of the same place in the alphabet; all other characters
/// stay, and making letters small twice is making them small once.
pub proof fn capital_letters_become_small(s: Seq<char>, i: int)
    requires
        0 <= i < s.len(),
    ensures
        lowered(s).len() == s.len(),
        'A' <= s[i] <= 'Z' ==> 'a' <= lowered(s)[i] <= 'z' && lowered(s)[i] as u32 - 'a' as u32
            == s[i] as u32 - 'A' as u32,
        !('A' <= s[i] <= 'Z') ==> lowered(s)[i] == s[i],
        lowered(lowered(s)) == lowered(s),
{
    assert forall|k: int| 0 <= k < s.len() implies lowered(lowered(s))[k] == lowered(s)[k] by {
        lemma_lower_char(s[k]);
    }
    lemma_lower_char(s[i]);
    assert(lowered(lowered(s)) =~= lowered(s));
}

proof fn lemma_lower_char(c: char)
    ensures
        'A' <= c <= 'Z' ==> 'a' <= lower_char(c) <= 'z' && lower_char(c) as u32 - 'a' as u32
            == c as u32 - 'A' as u32,
        lower_char(lower_char(c)) == lower_char(c),
{
}

/// What is left without the copies of an ending does not end with it; a text that
/// does not end with it is kept, and a further copy makes no difference.
pub proof fn endings_are_taken_away(s: Seq<char>, p: Seq<char>)
    requires
        p.len() > 0,
    ensures
        without_suffixes(s, p).is_prefix_of(s),
        !p.is_suffix_of(without_suffixes(s, p)),
        !p.is_suffix_of(s) ==> without_suffixes(s, p) == s,
        without_suffixes(s + p, p) == without_suffixes(s, p),
    decreases s.len(),
{
    assert((s + p).skip(s.len() as int) =~= p);
    assert((s + p).take(s.len() as int) =~= s);
    if p.is_suffix_of(s) {
        let rest = s.take(s.len() - p.len());
        endings_are_taken_away(rest, p);
        let r = without_suffixes(s, p);
        assert(s.take(r.len() as int) =~= rest.take(r.len() as int));
    } else {
        assert(s.take(s.len() as int) =~= s);
    }
}

/// A text stays as it is when it is trimmed exactly where it neither begins nor ends
/// with white space.
pub proof fn bare_texts_are_kept(s: Seq<char>)
    ensures
        trimmed(s) == s <==> s.len() == 0 || (!is_white(s[0]) && !is_white(s[s.len() - 1])),
{
    let r = trimming_takes_white_space_at_the_ends(s);
    if s.len() == 0 {
        assert(trimmed(s) =~= s);
    } else if !is_white(s[0]) && !is_white(s[s.len() - 1]) {
        assert(r.0 == 0 && r.1 == s.len());
        assert(s.subrange(0, s.len() as int) =~= s);
    } else if trimmed(s) == s {
        assert(s.subrange(r.0, r.1).len() == r.1 - r.0);
        assert(r.0 == 0 && r.1 == s.len());
    }
}

} // verus!
