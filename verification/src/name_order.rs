//! The order of names: lexicographic by code point, a proper prefix first.

use vstd::prelude::*;
use vstd::std_specs::iter::IteratorSpec;

verus! {

/// How many leading characters `a` and `b` have in common.
pub open spec fn shared_prefix(a: Seq<char>, b: Seq<char>) -> nat
    decreases a.len(),
{
    if a.len() == 0 || b.len() == 0 || a[0] != b[0] {
        0
    } else {
        1 + shared_prefix(a.drop_first(), b.drop_first())
    }
}

/// Whether `a` comes strictly before `b`: at the first place where the two
/// differ `a` has the smaller code point, or `a` ends there and `b` goes on.
pub open spec fn text_before(a: Seq<char>, b: Seq<char>) -> bool {
    let k = shared_prefix(a, b) as int;
    k < b.len() && (k == a.len() || (a[k] as int) < (b[k] as int))
}

/// `k` is the place where `a` and `b` part: they agree before it, and at it
/// they differ or one of them has ended.
pub open spec fn parts_at(a: Seq<char>, b: Seq<char>, k: int) -> bool {
    &&& 0 <= k <= a.len()
    &&& k <= b.len()
    &&& forall|i: int| 0 <= i < k ==> a[i] == b[i]
    &&& (k == a.len() || k == b.len() || a[k] != b[k])
}

/// The shared prefix ends where the two texts part.
pub proof fn lemma_shared_prefix_parts(a: Seq<char>, b: Seq<char>)
    ensures
        parts_at(a, b, shared_prefix(a, b) as int),
    decreases a.len(),
{
    if a.len() == 0 || b.len() == 0 || a[0] != b[0] {
    } else {
        let a1 = a.drop_first();
        let b1 = b.drop_first();
        lemma_shared_prefix_parts(a1, b1);
        let k1 = shared_prefix(a1, b1) as int;
        assert forall|i: int| 0 <= i < k1 + 1 implies a[i] == b[i] by {
            if i > 0 {
                assert(a1[i - 1] == a[i]);
                assert(b1[i - 1] == b[i]);
            }
        }
        if k1 < a1.len() && k1 < b1.len() {
            assert(a1[k1] == a[k1 + 1]);
            assert(b1[k1] == b[k1 + 1]);
        }
    }
}

/// Two texts part at one place only, and the shared prefix names it.
pub proof fn lemma_parts_at_unique(a: Seq<char>, b: Seq<char>, k: int)
    requires
        parts_at(a, b, k),
    ensures
        shared_prefix(a, b) == k,
    decreases a.len(),
{
    if a.len() == 0 || b.len() == 0 || a[0] != b[0] {
    } else {
        let a1 = a.drop_first();
        let b1 = b.drop_first();
        assert(k > 0);
        assert forall|i: int| 0 <= i < k - 1 implies a1[i] == b1[i] by {
            assert(a1[i] == a[i + 1]);
            assert(b1[i] == b[i + 1]);
        }
        if k - 1 < a1.len() && k - 1 < b1.len() {
            assert(a1[k - 1] == a[k]);
            assert(b1[k - 1] == b[k]);
        }
        lemma_parts_at_unique(a1, b1, k - 1);
    }
}

/// No text comes before itself, and of two texts at most one comes before
/// the other.
pub proof fn lemma_text_before_strict(a: Seq<char>, b: Seq<char>)
    ensures
        !(text_before(a, b) && text_before(b, a)),
        a == b ==> !text_before(a, b),
{
    lemma_shared_prefix_parts(a, b);
    lemma_parts_at_unique(b, a, shared_prefix(a, b) as int);
}

/// Of two different texts one comes before the other.
pub proof fn lemma_text_before_total(a: Seq<char>, b: Seq<char>)
    ensures
        a == b || text_before(a, b) || text_before(b, a),
{
    lemma_shared_prefix_parts(a, b);
    lemma_parts_at_unique(b, a, shared_prefix(a, b) as int);
    if !text_before(a, b) && !text_before(b, a) {
        assert(a =~= b);
    }
}

/// What comes before a text comes before everything after that text.
pub proof fn lemma_text_before_transitive(a: Seq<char>, b: Seq<char>, c: Seq<char>)
    requires
        text_before(a, b),
        text_before(b, c),
    ensures
        text_before(a, c),
{
    lemma_shared_prefix_parts(a, b);
    lemma_shared_prefix_parts(b, c);
    let ab = shared_prefix(a, b) as int;
    let bc = shared_prefix(b, c) as int;
    let k = if ab <= bc { ab } else { bc };
    assert(parts_at(a, c, k));
    lemma_parts_at_unique(a, c, k);
}

/// Executable form of [`text_before`].
pub fn name_before(a: &str, b: &str) -> (r: bool)
    ensures
        r == text_before(a@, b@),
{
    let mut rest_a = a.chars();
    let mut rest_b = b.chars();
    let ghost mut k: int = 0;
    loop
        invariant
            0 <= k <= a@.len(),
            k <= b@.len(),
            rest_a.obeys_prophetic_iter_laws(),
            rest_b.obeys_prophetic_iter_laws(),
            rest_a.remaining() == a@.subrange(k, a@.len() as int),
            rest_b.remaining() == b@.subrange(k, b@.len() as int),
            forall|i: int| 0 <= i < k ==> a@[i] == b@[i],
        decreases a@.len() - k,
    {
        let next_a = rest_a.next();
        let next_b = rest_b.next();
        match next_b {
            None => {
                proof {
                    lemma_parts_at_unique(a@, b@, k);
                }
                return false;
            },
            Some(cb) => {
                match next_a {
                    None => {
                        proof {
                            lemma_parts_at_unique(a@, b@, k);
                        }
                        return true;
                    },
                    Some(ca) => {
                        assert(ca == a@[k]);
                        assert(cb == b@[k]);
                        if ca != cb {
                            proof {
                                lemma_parts_at_unique(a@, b@, k);
                            }
                            return ca < cb;
                        }
                        proof {
                            assert(a@.subrange(k, a@.len() as int).drop_first() == a@.subrange(
                                k + 1,
                                a@.len() as int,
                            ));
                            assert(b@.subrange(k, b@.len() as int).drop_first() == b@.subrange(
                                k + 1,
                                b@.len() as int,
                            ));
                            k = k + 1;
                        }
                    },
                }
            },
        }
    }
}

} // verus!
