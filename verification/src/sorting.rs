//! Texts and numbers in order.
use vstd::prelude::*;

use crate::search;
use crate::text::chars_of;

verus! {

/// Whether `a` comes before `b` in a dictionary, or is the same.
pub open spec fn text_le(a: Seq<char>, b: Seq<char>) -> bool
    decreases a.len(),
{
    if a.len() == 0 {
        true
    } else if b.len() == 0 {
        false
    } else if a[0] == b[0] {
        text_le(a.drop_first(), b.drop_first())
    } else {
        a[0] < b[0]
    }
}

proof fn lemma_text_le_total(a: Seq<char>, b: Seq<char>)
    ensures
        text_le(a, b) || text_le(b, a),
    decreases a.len(),
{
    if a.len() > 0 && b.len() > 0 && a[0] == b[0] {
        lemma_text_le_total(a.drop_first(), b.drop_first());
    }
}

proof fn lemma_text_le_transitive(a: Seq<char>, b: Seq<char>, c: Seq<char>)
    requires
        text_le(a, b),
        text_le(b, c),
    ensures
        text_le(a, c),
    decreases a.len(),
{
    if a.len() > 0 && b.len() > 0 && c.len() > 0 && a[0] == b[0] && b[0] == c[0] {
        lemma_text_le_transitive(a.drop_first(), b.drop_first(), c.drop_first());
    }
}

/// Whether `a` comes before `b` in a dictionary, or is the same.
pub fn text_is_le(a: &str, b: &str) -> (r: bool)
    ensures
        r == text_le(a@, b@),
{
    let x = chars_of(a);
    let y = chars_of(b);
    let mut i: usize = 0;
    proof {
        assert(a@.skip(0) =~= a@);
        assert(b@.skip(0) =~= b@);
    }
    while i < x.len() && i < y.len() && x[i] == y[i]
        invariant
            x@ == a@,
            y@ == b@,
            i <= x@.len(),
            i <= y@.len(),
            text_le(a@, b@) == text_le(x@.skip(i as int), y@.skip(i as int)),
        decreases x@.len() - i,
    {
        proof {
            assert(x@.skip(i as int).drop_first() =~= x@.skip(i + 1));
            assert(y@.skip(i as int).drop_first() =~= y@.skip(i + 1));
        }
        i += 1;
    }
    if i >= x.len() {
        return true;
    }
    if i >= y.len() {
        return false;
    }
    x[i] < y[i]
}

/// Whether the texts are in order.
pub open spec fn texts_in_order(v: Seq<Seq<char>>) -> bool {
    forall|i: int, j: int| 0 <= i <= j < v.len() ==> text_le(#[trigger] v[i], #[trigger] v[j])
}

proof fn lemma_text_inserted(s: Seq<Seq<char>>, i: int, x: Seq<char>)
    requires
        0 <= i <= s.len(),
        texts_in_order(s),
        forall|k: int| 0 <= k < i ==> text_le(#[trigger] s[k], x),
        i < s.len() ==> !text_le(s[i], x),
    ensures
        texts_in_order(s.insert(i, x)),
        s.insert(i, x).to_multiset() == s.to_multiset().insert(x),
{
    let t = s.insert(i, x);
    assert forall|a: int, b: int| 0 <= a <= b < t.len() implies text_le(
        #[trigger] t[a],
        #[trigger] t[b],
    ) by {
        if a < i && b < i {
            assert(text_le(s[a], s[b]));
        } else if a < i && b == i {
            assert(text_le(s[a], x));
        } else if a < i {
            assert(text_le(s[a], s[b - 1]));
        } else if a == i && b == i {
            lemma_text_le_total(x, x);
        } else if a == i {
            lemma_text_le_total(s[i], x);
            assert(text_le(s[i], s[b - 1]));
            lemma_text_le_transitive(x, s[i], s[b - 1]);
        } else {
            assert(text_le(s[a - 1], s[b - 1]));
        }
    }
    lemma_inserted(s, i, x);
}

pub proof fn lemma_inserted<A>(s: Seq<A>, i: int, x: A)
    requires
        0 <= i <= s.len(),
    ensures
        s.insert(i, x).to_multiset() == s.to_multiset().insert(x),
{
    let t = s.insert(i, x);
    assert(t.remove(i) =~= s);
    t.to_multiset_ensures();
    assert(t[i] == x);
    assert(t.contains(x));
    assert(t.to_multiset().count(x) > 0);
    assert(t.to_multiset().remove(x) == s.to_multiset());
    assert(t.to_multiset() =~= s.to_multiset().insert(x));
}

/// The same texts in the order of a dictionary.
pub open spec fn in_order(v: Seq<Seq<char>>) -> Seq<Seq<char>> {
    v.sort_by(|a: Seq<char>, b: Seq<char>| text_le(a, b))
}

proof fn lemma_text_le_antisymmetric(a: Seq<char>, b: Seq<char>)
    requires
        text_le(a, b),
        text_le(b, a),
    ensures
        a == b,
    decreases a.len(),
{
    if a.len() > 0 && b.len() > 0 {
        lemma_text_le_antisymmetric(a.drop_first(), b.drop_first());
        assert(a =~= seq![a[0]] + a.drop_first());
        assert(b =~= seq![b[0]] + b.drop_first());
    } else {
        assert(a =~= b);
    }
}

/// Texts in order that are the same as others, counted, are those others in
/// order.
pub proof fn order_is_unique(v: Seq<Seq<char>>, r: Seq<Seq<char>>)
    requires
        texts_in_order(r),
        r.to_multiset() == v.to_multiset(),
    ensures
        r == in_order(v),
{
    let leq = |a: Seq<char>, b: Seq<char>| text_le(a, b);
    assert forall|x: Seq<char>| #[trigger] leq(x, x) by {
        lemma_text_le_total(x, x);
    }
    assert forall|x: Seq<char>, y: Seq<char>| #[trigger] leq(x, y) && #[trigger] leq(
        y,
        x,
    ) implies x == y by {
        lemma_text_le_antisymmetric(x, y);
    }
    assert forall|x: Seq<char>, y: Seq<char>, z: Seq<char>| #[trigger]
        leq(x, y) && #[trigger] leq(y, z) implies leq(x, z) by {
        lemma_text_le_transitive(x, y, z);
    }
    assert forall|x: Seq<char>, y: Seq<char>| #[trigger] leq(x, y) || #[trigger] leq(y, x) by {
        lemma_text_le_total(x, y);
    }
    v.lemma_sort_by_ensures(leq);
    vstd::seq_lib::lemma_sorted_unique(r, v.sort_by(leq), leq);
}

/// The same texts in order.
pub fn sort_texts(v: &[String]) -> (r: Vec<String>)
    ensures
        search::texts(r@) == in_order(search::texts(v@)),
{
    let mut out: Vec<String> = Vec::new();
    let mut n: usize = 0;
    proof {
        assert(search::texts(out@) =~= search::texts(v@).take(0));
    }
    while n < v.len()
        invariant
            n <= v@.len(),
            texts_in_order(search::texts(out@)),
            search::texts(out@).to_multiset() == search::texts(v@).take(n as int).to_multiset(),
        decreases v@.len() - n,
    {
        let ghost before = search::texts(out@);
        let mut i: usize = 0;
        while i < out.len() && text_is_le(out[i].as_str(), v[n].as_str())
            invariant
                n < v@.len(),
                i <= out@.len(),
                before == search::texts(out@),
                forall|k: int| 0 <= k < i ==> text_le(#[trigger] before[k], v@[n as int]@),
            decreases out@.len() - i,
        {
            i += 1;
        }
        let s = v[n].as_str().to_owned();
        proof {
            lemma_text_inserted(before, i as int, s@);
            search::texts(v@).take(n as int).to_multiset_ensures();
            assert(search::texts(v@).take(n + 1) =~= search::texts(v@).take(n as int).push(s@));
        }
        out.insert(i, s);
        proof {
            assert(search::texts(out@) =~= before.insert(i as int, s@));
        }
        n += 1;
    }
    proof {
        assert(search::texts(v@).take(v@.len() as int) =~= search::texts(v@));
        order_is_unique(search::texts(v@), search::texts(out@));
    }
    out
}

/// Whether every number is less than the ones behind it.
pub open spec fn ids_in_order(v: Seq<u64>) -> bool {
    forall|i: int, j: int| 0 <= i < j < v.len() ==> #[trigger] v[i] < #[trigger] v[j]
}

/// Puts a number where it belongs, unless it is there.
pub fn insert_id(ids: &mut Vec<u64>, id: u64)
    requires
        ids_in_order(old(ids)@),
    ensures
        ids_in_order(final(ids)@),
        final(ids)@.to_set() == old(ids)@.to_set().insert(id),
{
    let mut i: usize = 0;
    let ghost before = ids@;
    while i < ids.len() && ids[i] < id
        invariant
            ids@ == before,
            i <= ids@.len(),
            forall|k: int| 0 <= k < i ==> #[trigger] before[k] < id,
        decreases ids@.len() - i,
    {
        i += 1;
    }
    if i < ids.len() && ids[i] == id {
        proof {
            assert(before.contains(before[i as int]));
            assert(before.to_set().insert(id) =~= before.to_set());
        }
        return;
    }
    ids.insert(i, id);
    proof {
        let after = ids@;
        assert forall|x: u64| after.to_set().contains(x) == before.to_set().insert(id).contains(
            x,
        ) by {
            if after.contains(x) {
                let k = choose|k: int| 0 <= k < after.len() && after[k] == x;
                if k < i {
                    assert(before[k] == x);
                } else if k > i {
                    assert(before[k - 1] == x);
                }
            }
            if before.contains(x) {
                let k = choose|k: int| 0 <= k < before.len() && before[k] == x;
                if k < i {
                    assert(after[k] == x);
                } else {
                    assert(after[k + 1] == x);
                }
            }
            assert(after[i as int] == id);
        }
        assert(after.to_set() =~= before.to_set().insert(id));
    }
}

/// Texts are in the order of their characters: one that begins another comes before it,
/// and of two others the one with the smaller character where they first differ.
pub proof fn texts_are_ordered_by_characters(
    front: Seq<char>,
    a: char,
    b: char,
    x: Seq<char>,
    y: Seq<char>,
)
    requires
        a < b,
    ensures
        text_le(front, front + x),
        text_le(front + seq![a] + x, front + seq![b] + y),
        !text_le(front + seq![b] + y, front + seq![a] + x),
        x.len() > 0 ==> !text_le(front + x, front),
    decreases front.len(),
{
    let s = front + seq![a] + x;
    let t = front + seq![b] + y;
    if front.len() > 0 {
        let rest = front.drop_first();
        texts_are_ordered_by_characters(rest, a, b, x, y);
        assert(s.drop_first() =~= rest + seq![a] + x);
        assert(t.drop_first() =~= rest + seq![b] + y);
        assert((front + x).drop_first() =~= rest + x);
    } else {
        assert(s[0] == a && t[0] == b);
        assert(front + x =~= x);
    }
}

/// Numbers in order grow, and none is there twice.
pub proof fn numbers_in_order_grow(v: Seq<u64>, i: int, j: int)
    requires
        ids_in_order(v),
        0 <= i < j < v.len(),
    ensures
        v[i] < v[j],
{
}

} // verus!
