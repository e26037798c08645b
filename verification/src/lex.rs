//! Byte-string order: the order in which keys are kept sorted, and the
//! prefix searches over such sorted keys.
use vstd::prelude::*;

verus! {

/// `a` comes strictly before `b`: at the first byte where they differ, `a`
/// has the smaller one, or `a` is a proper prefix of `b`.
pub open spec fn lex_lt(a: Seq<u8>, b: Seq<u8>) -> bool
    decreases a.len(),
{
    if a.len() == 0 {
        b.len() > 0
    } else if b.len() == 0 {
        false
    } else if a[0] != b[0] {
        a[0] < b[0]
    } else {
        lex_lt(a.drop_first(), b.drop_first())
    }
}

/// `p` is a prefix of `s`.
pub open spec fn starts_with(s: Seq<u8>, p: Seq<u8>) -> bool {
    p.len() <= s.len() && s.subrange(0, p.len() as int) == p
}

/// The result of comparing two byte strings.
#[derive(Clone, Copy, Debug, PartialEq, Eq, Structural)]
pub enum Lex {
    Less,
    Equal,
    Greater,
}

/// Nothing comes before itself, and of two strings at most one comes first.
pub proof fn lemma_lex_asymmetric(a: Seq<u8>, b: Seq<u8>)
    ensures
        !(lex_lt(a, b) && lex_lt(b, a)),
        !lex_lt(a, a),
    decreases a.len(),
{
    if a.len() > 0 && b.len() > 0 {
        lemma_lex_asymmetric(a.drop_first(), b.drop_first());
    }
    if a.len() > 0 {
        lemma_lex_asymmetric(a.drop_first(), a.drop_first());
    }
}

/// The order is transitive.
pub proof fn lemma_lex_transitive(a: Seq<u8>, b: Seq<u8>, c: Seq<u8>)
    requires
        lex_lt(a, b),
        lex_lt(b, c),
    ensures
        lex_lt(a, c),
    decreases a.len(),
{
    if a.len() > 0 && b.len() > 0 && c.len() > 0 {
        if a[0] == b[0] && b[0] == c[0] {
            lemma_lex_transitive(a.drop_first(), b.drop_first(), c.drop_first());
        }
    }
}

/// Two different strings are ordered one way or the other.
pub proof fn lemma_lex_total(a: Seq<u8>, b: Seq<u8>)
    requires
        a != b,
    ensures
        lex_lt(a, b) || lex_lt(b, a),
    decreases a.len(),
{
    if a.len() > 0 && b.len() > 0 && a[0] == b[0] {
        if a.drop_first() == b.drop_first() {
            assert(a =~= seq![a[0]] + a.drop_first());
            assert(b =~= seq![b[0]] + b.drop_first());
        }
        lemma_lex_total(a.drop_first(), b.drop_first());
    }
    if a.len() == 0 && b.len() == 0 {
        assert(a =~= b);
    }
}

/// A string never comes before one of its prefixes.
pub proof fn lemma_prefix_not_before(s: Seq<u8>, p: Seq<u8>)
    requires
        starts_with(s, p),
    ensures
        !lex_lt(s, p),
    decreases p.len(),
{
    if p.len() > 0 {
        assert(s.drop_first().subrange(0, p.len() - 1) =~= p.drop_first());
        assert(s[0] == s.subrange(0, p.len() as int)[0]);
        lemma_prefix_not_before(s.drop_first(), p.drop_first());
    }
}

/// A string `e` that does not come before `p` but does not start with it
/// comes after every string that starts with `p`.
pub proof fn lemma_past_prefix_block(e: Seq<u8>, p: Seq<u8>, f: Seq<u8>)
    requires
        !starts_with(e, p),
        !lex_lt(e, p),
        starts_with(f, p),
    ensures
        lex_lt(f, e),
    decreases p.len(),
{
    assert(p.len() > 0) by {
        if p.len() == 0 {
            assert(e.subrange(0, 0) =~= p);
        }
    }
    assert(f[0] == f.subrange(0, p.len() as int)[0]);
    if e.len() == 0 {
    } else if e[0] != p[0] {
    } else {
        assert(f.drop_first().subrange(0, p.len() - 1) =~= p.drop_first());
        if starts_with(e.drop_first(), p.drop_first()) {
            assert(e.subrange(0, p.len() as int) =~= seq![e[0]] + e.drop_first().subrange(
                0,
                p.len() - 1,
            ));
            assert(p =~= seq![p[0]] + p.drop_first());
        }
        lemma_past_prefix_block(e.drop_first(), p.drop_first(), f.drop_first());
    }
}

/// Dropping a common beginning keeps the order.
proof fn lemma_lex_skip(a: Seq<u8>, b: Seq<u8>, i: int)
    requires
        0 <= i <= a.len(),
        i <= b.len(),
        a.subrange(0, i) == b.subrange(0, i),
    ensures
        lex_lt(a, b) == lex_lt(a.skip(i), b.skip(i)),
    decreases i,
{
    if i > 0 {
        assert(a[0] == a.subrange(0, i)[0]);
        assert(b[0] == b.subrange(0, i)[0]);
        assert(a.drop_first().subrange(0, i - 1) =~= a.subrange(0, i).drop_first());
        assert(b.drop_first().subrange(0, i - 1) =~= b.subrange(0, i).drop_first());
        lemma_lex_skip(a.drop_first(), b.drop_first(), i - 1);
        assert(a.drop_first().skip(i - 1) =~= a.skip(i));
        assert(b.drop_first().skip(i - 1) =~= b.skip(i));
    } else {
        assert(a.skip(0) =~= a);
        assert(b.skip(0) =~= b);
    }
}

/// Compares two byte strings in byte-string order.
pub fn compare_bytes(a: &[u8], b: &[u8]) -> (r: Lex)
    ensures
        r == Lex::Less <==> lex_lt(a@, b@),
        r == Lex::Equal <==> a@ == b@,
        r == Lex::Greater <==> lex_lt(b@, a@),
{
    let mut i: usize = 0;
    while i < a.len() && i < b.len()
        invariant
            i <= a@.len(),
            i <= b@.len(),
            a@.subrange(0, i as int) == b@.subrange(0, i as int),
        decreases a@.len() - i,
    {
        if a[i] != b[i] {
            proof {
                lemma_lex_skip(a@, b@, i as int);
                lemma_lex_skip(b@, a@, i as int);
                assert(a@.skip(i as int)[0] == a@[i as int]);
                assert(b@.skip(i as int)[0] == b@[i as int]);
                lemma_lex_asymmetric(a@, b@);
            }
            if a[i] < b[i] {
                return Lex::Less;
            } else {
                return Lex::Greater;
            }
        }
        assert(a@.subrange(0, i + 1) =~= a@.subrange(0, i as int).push(a@[i as int]));
        assert(b@.subrange(0, i + 1) =~= b@.subrange(0, i as int).push(b@[i as int]));
        i = i + 1;
    }
    proof {
        lemma_lex_skip(a@, b@, i as int);
        lemma_lex_skip(b@, a@, i as int);
        lemma_lex_asymmetric(a@, b@);
    }
    if a.len() == b.len() {
        proof {
            assert(a@ =~= a@.subrange(0, i as int));
            assert(b@ =~= b@.subrange(0, i as int));
        }
        Lex::Equal
    } else if a.len() < b.len() {
        proof {
            assert(a@.skip(i as int).len() == 0);
        }
        Lex::Less
    } else {
        proof {
            assert(b@.skip(i as int).len() == 0);
        }
        Lex::Greater
    }
}

/// Whether `s` starts with `p`.
pub fn has_prefix(s: &[u8], p: &[u8]) -> (r: bool)
    ensures
        r <==> starts_with(s@, p@),
{
    if p.len() > s.len() {
        return false;
    }
    let mut i: usize = 0;
    while i < p.len()
        invariant
            p@.len() <= s@.len(),
            i <= p@.len(),
            forall|j: int| 0 <= j < i ==> s@[j] == p@[j],
        decreases p@.len() - i,
    {
        if s[i] != p[i] {
            assert(s@.subrange(0, p@.len() as int)[i as int] != p@[i as int]);
            return false;
        }
        i = i + 1;
    }
    assert(s@.subrange(0, p@.len() as int) =~= p@);
    true
}

} // verus!
