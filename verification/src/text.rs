//! File names as sequences of characters: prefixes, suffixes and
//! dictionary order.

use vstd::prelude::*;
use vstd::relations::*;
use vstd::string::*;

verus! {

/// Dictionary order by code point: `a` sorts no later than `b`.
///
/// A text sorts before each of its extensions, and otherwise the first
/// position at which two texts differ decides.
pub open spec fn text_le(a: Seq<char>, b: Seq<char>) -> bool
    decreases a.len(),
{
    if a.len() == 0 {
        true
    } else if b.len() == 0 {
        false
    } else if a[0] == b[0] {
        text_le(a.drop_first(), b.drop_first())
    } else {
        (a[0] as int) < (b[0] as int)
    }
}

/// The order in which the newest dated name comes first.
pub open spec fn newest_first() -> spec_fn(Seq<char>, Seq<char>) -> bool {
    |a: Seq<char>, b: Seq<char>| text_le(b, a)
}

pub proof fn lemma_text_le_reflexive(a: Seq<char>)
    ensures
        text_le(a, a),
    decreases a.len(),
{
    if a.len() > 0 {
        lemma_text_le_reflexive(a.drop_first());
    }
}

pub proof fn lemma_text_le_antisymmetric(a: Seq<char>, b: Seq<char>)
    requires
        text_le(a, b),
        text_le(b, a),
    ensures
        a == b,
    decreases a.len(),
{
    if a.len() == 0 || b.len() == 0 {
        assert(a =~= b);
    } else {
        lemma_text_le_antisymmetric(a.drop_first(), b.drop_first());
        assert(a =~= seq![a[0]] + a.drop_first());
        assert(b =~= seq![b[0]] + b.drop_first());
    }
}

pub proof fn lemma_text_le_transitive(a: Seq<char>, b: Seq<char>, c: Seq<char>)
    requires
        text_le(a, b),
        text_le(b, c),
    ensures
        text_le(a, c),
    decreases a.len(),
{
    if a.len() > 0 && b.len() > 0 && c.len() > 0 && a[0] == b[0] && b[0] == c[0] {
        lemma_text_le_transitive(a.drop_first(), b.drop_first(), c.drop_first());
    }
}

pub proof fn lemma_text_le_total(a: Seq<char>, b: Seq<char>)
    ensures
        text_le(a, b) || text_le(b, a),
    decreases a.len(),
{
    if a.len() > 0 && b.len() > 0 && a[0] == b[0] {
        lemma_text_le_total(a.drop_first(), b.drop_first());
    }
}

/// Dictionary order, and so its reverse, orders all texts in one line.
pub proof fn lemma_newest_first_is_total()
    ensures
        total_ordering(newest_first()),
{
    let r = newest_first();
    assert forall|x: Seq<char>| #[trigger] r(x, x) by {
        lemma_text_le_reflexive(x);
    }
    assert forall|x: Seq<char>, y: Seq<char>| #[trigger] r(x, y) && #[trigger] r(y, x) implies x
        == y by {
        lemma_text_le_antisymmetric(x, y);
    }
    assert forall|x: Seq<char>, y: Seq<char>, z: Seq<char>| #[trigger]
        r(x, y) && #[trigger] r(y, z) implies r(x, z) by {
        lemma_text_le_transitive(z, y, x);
    }
    assert forall|x: Seq<char>, y: Seq<char>| #[trigger] r(x, y) || #[trigger] r(y, x) by {
        lemma_text_le_total(x, y);
    }
}

/// A shared beginning does not change the order of two texts.
pub proof fn lemma_text_le_after_common_prefix(p: Seq<char>, a: Seq<char>, b: Seq<char>)
    ensures
        text_le(p + a, p + b) == text_le(a, b),
    decreases p.len(),
{
    if p.len() == 0 {
        assert(p + a =~= a);
        assert(p + b =~= b);
    } else {
        assert((p + a).drop_first() =~= p.drop_first() + a);
        assert((p + b).drop_first() =~= p.drop_first() + b);
        lemma_text_le_after_common_prefix(p.drop_first(), a, b);
    }
}

/// Two texts that begin with parts of one length are ordered by those parts,
/// and by what follows them where the parts are equal.
pub proof fn lemma_text_le_by_parts(u1: Seq<char>, v1: Seq<char>, u2: Seq<char>, v2: Seq<char>)
    requires
        u1.len() == u2.len(),
    ensures
        text_le(u1 + v1, u2 + v2) == if u1 == u2 {
            text_le(v1, v2)
        } else {
            text_le(u1, u2)
        },
        u1 != u2 ==> !(text_le(u1, u2) && text_le(u2, u1)),
    decreases u1.len(),
{
    if u1.len() == 0 {
        assert(u1 =~= u2);
        assert(u1 + v1 =~= v1);
        assert(u2 + v2 =~= v2);
    } else {
        assert((u1 + v1).drop_first() =~= u1.drop_first() + v1);
        assert((u2 + v2).drop_first() =~= u2.drop_first() + v2);
        lemma_text_le_by_parts(u1.drop_first(), v1, u2.drop_first(), v2);
        if u1[0] == u2[0] {
            if u1.drop_first() == u2.drop_first() {
                assert(u1 =~= seq![u1[0]] + u1.drop_first());
                assert(u2 =~= seq![u2[0]] + u2.drop_first());
            }
        }
        if u1 != u2 && text_le(u1, u2) && text_le(u2, u1) {
            lemma_text_le_antisymmetric(u1, u2);
        }
    }
}

/// Whether `text` begins with `prefix`.
pub fn starts_with(text: &str, prefix: &str) -> (yes: bool)
    ensures
        yes == prefix@.is_prefix_of(text@),
{
    let n = text.unicode_len();
    let m = prefix.unicode_len();
    if m > n {
        return false;
    }
    let mut i: usize = 0;
    while i < m
        invariant
            i <= m <= n,
            n == text@.len(),
            m == prefix@.len(),
            forall|k: int| 0 <= k < i ==> text@[k] == prefix@[k],
        decreases m - i,
    {
        if text.get_char(i) != prefix.get_char(i) {
            assert(text@.subrange(0, m as int)[i as int] != prefix@[i as int]);
            return false;
        }
        i += 1;
    }
    assert(prefix@ =~= text@.subrange(0, m as int));
    true
}

/// Whether `text` ends with `suffix`.
pub fn ends_with(text: &str, suffix: &str) -> (yes: bool)
    ensures
        yes == suffix@.is_suffix_of(text@),
{
    let n = text.unicode_len();
    let m = suffix.unicode_len();
    if m > n {
        return false;
    }
    let shift: usize = n - m;
    let mut i: usize = 0;
    while i < m
        invariant
            i <= m <= n,
            shift == n - m,
            n == text@.len(),
            m == suffix@.len(),
            forall|k: int| 0 <= k < i ==> text@[shift + k] == suffix@[k],
        decreases m - i,
    {
        if text.get_char(shift + i) != suffix.get_char(i) {
            assert(text@.subrange(shift as int, n as int)[i as int] != suffix@[i as int]);
            return false;
        }
        i += 1;
    }
    assert(suffix@ =~= text@.subrange(shift as int, n as int));
    true
}

/// Whether `a` sorts no later than `b` in dictionary order.
pub fn sorts_no_later(a: &str, b: &str) -> (yes: bool)
    ensures
        yes == text_le(a@, b@),
{
    let n = a.unicode_len();
    let m = b.unicode_len();
    let mut i: usize = 0;
    proof {
        assert(a@.skip(0) =~= a@);
        assert(b@.skip(0) =~= b@);
    }
    while i < n && i < m
        invariant
            i <= n,
            i <= m,
            n == a@.len(),
            m == b@.len(),
            text_le(a@, b@) == text_le(a@.skip(i as int), b@.skip(i as int)),
        decreases n - i,
    {
        let x = a.get_char(i);
        let y = b.get_char(i);
        if x != y {
            return (x as u32) < (y as u32);
        }
        proof {
            assert(a@.skip(i as int).drop_first() =~= a@.skip(i + 1));
            assert(b@.skip(i as int).drop_first() =~= b@.skip(i + 1));
        }
        i += 1;
    }
    i == n
}

} // verus!
