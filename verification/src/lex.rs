//! Byte-wise lexicographic order on names.
//!
//! Archive entries are kept and emitted in strictly increasing name order;
//! this module defines that order, proves the pieces of its theory that the
//! plan needs (trichotomy and transitivity), and provides the executable
//! comparisons.

use vstd::prelude::*;

verus! {

/// `a` comes strictly before `b` in byte-wise lexicographic order: at the
/// first position where they differ, `a` has the smaller byte, or `a` is a
/// strict prefix of `b`.
pub open spec fn lex_less(a: Seq<u8>, b: Seq<u8>) -> bool
    decreases a.len(),
{
    if b.len() == 0 {
        false
    } else if a.len() == 0 {
        true
    } else if a[0] < b[0] {
        true
    } else if a[0] == b[0] {
        lex_less(a.drop_first(), b.drop_first())
    } else {
        false
    }
}

/// Of two byte sequences, exactly one of `a < b`, `a == b`, `b < a` holds.
pub proof fn lemma_lex_trichotomy(a: Seq<u8>, b: Seq<u8>)
    ensures
        lex_less(a, b) || lex_less(b, a) || a == b,
        lex_less(a, b) ==> !lex_less(b, a) && a != b,
        lex_less(b, a) ==> !lex_less(a, b) && a != b,
    decreases a.len(),
{
    if a.len() == 0 || b.len() == 0 {
        if a.len() == 0 && b.len() == 0 {
            assert(a =~= b);
        }
    } else {
        lemma_lex_trichotomy(a.drop_first(), b.drop_first());
        if a[0] == b[0] && a.drop_first() == b.drop_first() {
            assert(a =~= seq![a[0]] + a.drop_first());
            assert(b =~= seq![b[0]] + b.drop_first());
            assert(a == b);
        }
        if a == b {
            assert(a.drop_first() =~= b.drop_first());
        }
    }
}

/// Lexicographic order is transitive.
pub proof fn lemma_lex_transitive(a: Seq<u8>, b: Seq<u8>, c: Seq<u8>)
    requires
        lex_less(a, b),
        lex_less(b, c),
    ensures
        lex_less(a, c),
    decreases a.len(),
{
    if a.len() == 0 {
    } else if a[0] == b[0] && b[0] == c[0] {
        lemma_lex_transitive(a.drop_first(), b.drop_first(), c.drop_first());
    }
}

/// Whether `a` comes strictly before `b` in byte-wise lexicographic order.
pub fn bytes_less(a: &Vec<u8>, b: &Vec<u8>) -> (r: bool)
    ensures
        r == lex_less(a@, b@),
{
    let mut i: usize = 0;
    loop
        invariant
            i <= a.len(),
            i <= b.len(),
            forall|j: int| 0 <= j < i ==> a@[j] == b@[j],
        decreases a.len() - i,
    {
        if i >= b.len() {
            proof {
                lemma_lex_common_prefix(a@, b@, i as int);
            }
            return false;
        }
        if i >= a.len() {
            proof {
                lemma_lex_common_prefix(a@, b@, i as int);
            }
            return true;
        }
        let x = a[i];
        let y = b[i];
        if x != y {
            proof {
                lemma_lex_common_prefix(a@, b@, i as int);
            }
            return x < y;
        }
        i = i + 1;
    }
}

/// Whether `a` and `b` hold the same bytes.
pub fn bytes_equal(a: &Vec<u8>, b: &Vec<u8>) -> (r: bool)
    ensures
        r == (a@ == b@),
{
    if a.len() != b.len() {
        return false;
    }
    let mut i: usize = 0;
    while i < a.len()
        invariant
            i <= a.len(),
            a@.len() == b@.len(),
            forall|j: int| 0 <= j < i ==> a@[j] == b@[j],
        decreases a.len() - i,
    {
        if a[i] != b[i] {
            return false;
        }
        i = i + 1;
    }
    proof {
        assert(a@ =~= b@);
    }
    true
}

/// With the first `i` bytes equal, the order of `a` and `b` is decided at
/// position `i`: by whichever sequence ends there, or by the bytes there.
proof fn lemma_lex_common_prefix(a: Seq<u8>, b: Seq<u8>, i: int)
    requires
        0 <= i <= a.len(),
        i <= b.len(),
        forall|j: int| 0 <= j < i ==> a[j] == b[j],
    ensures
        i == a.len() && i == b.len() ==> !lex_less(a, b) && !lex_less(b, a),
        i == a.len() && i < b.len() ==> lex_less(a, b),
        i == b.len() && i < a.len() ==> !lex_less(a, b),
        i < a.len() && i < b.len() && a[i] < b[i] ==> lex_less(a, b),
        i < a.len() && i < b.len() && a[i] > b[i] ==> !lex_less(a, b),
    decreases i,
{
    if i > 0 {
        lemma_lex_common_prefix(a.drop_first(), b.drop_first(), i - 1);
    }
}

} // verus!
