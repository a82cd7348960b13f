//! The order of string keys: lexicographic by character, which is the order of their UTF-8 bytes.
use vstd::prelude::*;

verus! {

/// The outcome of comparing two keys.
#[derive(Debug, Clone, Copy, PartialEq, Eq, Structural)]
pub enum KeyOrder {
    Less,
    Equal,
    Greater,
}

/// `a` comes strictly before `b` when, after their longest common prefix, `a` ends first or
/// has the smaller character.
pub open spec fn key_lt(a: Seq<char>, b: Seq<char>) -> bool
    decreases a.len(),
{
    if a.len() == 0 {
        b.len() > 0
    } else if b.len() == 0 {
        false
    } else if a[0] != b[0] {
        (a[0] as int) < (b[0] as int)
    } else {
        key_lt(a.drop_first(), b.drop_first())
    }
}

/// No key comes before itself.
pub proof fn lemma_key_lt_irreflexive(a: Seq<char>)
    ensures
        !key_lt(a, a),
    decreases a.len(),
{
    if a.len() > 0 {
        lemma_key_lt_irreflexive(a.drop_first());
    }
}

/// The order is transitive.
pub proof fn lemma_key_lt_transitive(a: Seq<char>, b: Seq<char>, c: Seq<char>)
    requires
        key_lt(a, b),
        key_lt(b, c),
    ensures
        key_lt(a, c),
    decreases a.len(),
{
    if a.len() > 0 && b.len() > 0 && c.len() > 0 {
        if a[0] == b[0] && b[0] == c[0] {
            lemma_key_lt_transitive(a.drop_first(), b.drop_first(), c.drop_first());
        }
    }
}

/// The order never holds both ways.
pub proof fn lemma_key_lt_asymmetric(a: Seq<char>, b: Seq<char>)
    requires
        key_lt(a, b),
    ensures
        !key_lt(b, a),
{
    if key_lt(b, a) {
        lemma_key_lt_transitive(a, b, a);
        lemma_key_lt_irreflexive(a);
    }
}

/// Compares two keys character by character.
pub fn key_order(a: &String, b: &String) -> (r: KeyOrder)
    ensures
        r == KeyOrder::Less <==> key_lt(a@, b@),
        r == KeyOrder::Equal <==> a@ == b@,
        r == KeyOrder::Greater <==> key_lt(b@, a@),
{
    let sa = a.as_str();
    let sb = b.as_str();
    let la = sa.unicode_len();
    let lb = sb.unicode_len();
    let mut i: usize = 0;
    proof {
        assert(a@.skip(0) =~= a@);
        assert(b@.skip(0) =~= b@);
    }
    while i < la && i < lb
        invariant
            la == a@.len(),
            lb == b@.len(),
            sa@ == a@,
            sb@ == b@,
            i <= la,
            i <= lb,
            key_lt(a@, b@) == key_lt(a@.skip(i as int), b@.skip(i as int)),
            key_lt(b@, a@) == key_lt(b@.skip(i as int), a@.skip(i as int)),
            (a@ == b@) == (a@.skip(i as int) == b@.skip(i as int)),
        decreases la - i,
    {
        let ca = sa.get_char(i);
        let cb = sb.get_char(i);
        let ghost sa_i = a@.skip(i as int);
        let ghost sb_i = b@.skip(i as int);
        if ca != cb {
            proof {
                assert(sa_i[0] == ca);
                assert(sb_i[0] == cb);
                if sa_i == sb_i {
                    assert(sa_i[0] == sb_i[0]);
                }
            }
            if (ca as u32) < (cb as u32) {
                return KeyOrder::Less;
            } else {
                proof {
                    assert((ca as u32) != (cb as u32));
                }
                return KeyOrder::Greater;
            }
        }
        proof {
            assert(sa_i.drop_first() =~= a@.skip(i + 1));
            assert(sb_i.drop_first() =~= b@.skip(i + 1));
            assert(sa_i[0] == sb_i[0]);
            if sa_i.drop_first() == sb_i.drop_first() {
                assert(sa_i =~= seq![sa_i[0]] + sa_i.drop_first());
                assert(sb_i =~= seq![sb_i[0]] + sb_i.drop_first());
            }
        }
        i = i + 1;
    }
    proof {
        let ta = a@.skip(i as int);
        let tb = b@.skip(i as int);
        if ta.len() == 0 && tb.len() == 0 {
            assert(ta =~= tb);
        }
        if ta.len() == 0 && tb.len() != 0 {
            assert(ta != tb);
        }
        if ta.len() != 0 && tb.len() == 0 {
            assert(ta != tb);
        }
    }
    if la < lb {
        KeyOrder::Less
    } else if la == lb {
        KeyOrder::Equal
    } else {
        KeyOrder::Greater
    }
}

} // verus!
