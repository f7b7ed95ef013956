//! Stable sorting by keys made of an integer and two texts, compared lexicographically.
use vstd::prelude::*;
use crate::text::{chars_lt, lemma_seq_lt_irreflexive, lemma_seq_lt_total, lemma_seq_lt_transitive, seq_lt};

verus! {

/// Strict lexicographic order on keys: the integer first, then the two texts.
pub open spec fn key_before(a: (int, Seq<char>, Seq<char>), b: (int, Seq<char>, Seq<char>)) -> bool {
    a.0 < b.0 || (a.0 == b.0 && (seq_lt(a.1, b.1) || (a.1 == b.1 && seq_lt(a.2, b.2))))
}

/// The mathematical value of an exec key.
pub open spec fn key_view(k: (i64, Vec<char>, Vec<char>)) -> (int, Seq<char>, Seq<char>) {
    (k.0 as int, k.1@, k.2@)
}

/// `p` lists the indices of `keys` each once, in non-decreasing key order, and indices of
/// equal keys in increasing order.
pub open spec fn is_stable_order(keys: Seq<(int, Seq<char>, Seq<char>)>, p: Seq<usize>) -> bool {
    let n = keys.len();
    &&& p.len() == n
    &&& forall|k: int| 0 <= k < n ==> (#[trigger] p[k]) < n
    &&& forall|k: int, l: int| 0 <= k < l < n ==> #[trigger] p[k] != #[trigger] p[l]
    &&& forall|k: int, l: int|
        0 <= k < l < n ==> !key_before(keys[#[trigger] p[l] as int], keys[#[trigger] p[k] as int])
    &&& forall|k: int, l: int|
        0 <= k < l < n && !key_before(keys[#[trigger] p[k] as int], keys[#[trigger] p[l] as int])
            ==> p[k] < p[l]
}

/// The key order is asymmetric.
pub proof fn lemma_key_asym(a: (int, Seq<char>, Seq<char>), b: (int, Seq<char>, Seq<char>))
    requires
        key_before(a, b),
    ensures
        !key_before(b, a),
{
    lemma_seq_lt_irreflexive(a.1);
    lemma_seq_lt_irreflexive(a.2);
    if seq_lt(a.1, b.1) && seq_lt(b.1, a.1) {
        lemma_seq_lt_transitive(a.1, b.1, a.1);
    }
    if seq_lt(a.2, b.2) && seq_lt(b.2, a.2) {
        lemma_seq_lt_transitive(a.2, b.2, a.2);
    }
}

/// Keys ordered neither way are equal.
pub proof fn lemma_key_total(a: (int, Seq<char>, Seq<char>), b: (int, Seq<char>, Seq<char>))
    requires
        !key_before(a, b),
        !key_before(b, a),
    ensures
        a == b,
{
    lemma_seq_lt_total(a.1, b.1);
    lemma_seq_lt_total(a.2, b.2);
}

/// The key order is transitive.
pub proof fn lemma_key_trans(
    a: (int, Seq<char>, Seq<char>),
    b: (int, Seq<char>, Seq<char>),
    c: (int, Seq<char>, Seq<char>),
)
    requires
        key_before(a, b),
        key_before(b, c),
    ensures
        key_before(a, c),
{
    if a.0 == b.0 && b.0 == c.0 {
        if seq_lt(a.1, b.1) && seq_lt(b.1, c.1) {
            lemma_seq_lt_transitive(a.1, b.1, c.1);
        }
        if a.1 == b.1 && b.1 == c.1 {
            lemma_seq_lt_irreflexive(a.1);
            lemma_seq_lt_transitive(a.2, b.2, c.2);
        }
    }
}

/// `a < b` and `b ≤ c` give `a < c`.
proof fn lemma_key_mixed(
    a: (int, Seq<char>, Seq<char>),
    b: (int, Seq<char>, Seq<char>),
    c: (int, Seq<char>, Seq<char>),
)
    requires
        key_before(a, b),
        !key_before(c, b),
    ensures
        key_before(a, c),
{
    if key_before(b, c) {
        lemma_key_trans(a, b, c);
    } else {
        lemma_key_total(b, c);
    }
}

/// Whether exec key `a` sorts strictly before `b`.
pub fn key_less(a: &(i64, Vec<char>, Vec<char>), b: &(i64, Vec<char>, Vec<char>)) -> (r: bool)
    ensures
        r == key_before(key_view(*a), key_view(*b)),
{
    if a.0 < b.0 {
        return true;
    }
    if a.0 > b.0 {
        return false;
    }
    if chars_lt(&a.1, &b.1) {
        return true;
    }
    if chars_lt(&b.1, &a.1) {
        proof {
            lemma_seq_lt_irreflexive(a.1@);
        }
        return false;
    }
    proof {
        lemma_seq_lt_total(a.1@, b.1@);
    }
    chars_lt(&a.2, &b.2)
}

/// A stable sort of the indices of `keys` (insertion sort). `keys[r[0]]` is the smallest.
pub fn stable_order(keys: &Vec<(i64, Vec<char>, Vec<char>)>) -> (r: Vec<usize>)
    ensures
        is_stable_order(keys@.map_values(|k: (i64, Vec<char>, Vec<char>)| key_view(k)), r@),
{
    let ghost ks = keys@.map_values(|k: (i64, Vec<char>, Vec<char>)| key_view(k));
    let n = keys.len();
    let mut p: Vec<usize> = Vec::new();
    let mut i: usize = 0;
    while i < n
        invariant
            n == keys.len(),
            i <= n,
            ks == keys@.map_values(|k: (i64, Vec<char>, Vec<char>)| key_view(k)),
            is_stable_order(ks.subrange(0, i as int), p@),
            forall|k: int| 0 <= k < p@.len() ==> (#[trigger] p@[k]) < i,
        decreases n - i,
    {
        let ghost sub = ks.subrange(0, i as int);
        let ghost sub2 = ks.subrange(0, i + 1);
        proof {
            assert forall|k: int| 0 <= k < i implies #[trigger] sub2[k] == sub[k] && sub[k] == ks[k] by {}
            assert(sub2[i as int] == ks[i as int]);
        }
        let mut q: usize = 0;
        while q < p.len() && !key_less(&keys[i], &keys[p[q]])
            invariant
                q <= p.len(),
                p.len() == i,
                i < n,
                n == keys.len(),
                ks == keys@.map_values(|k: (i64, Vec<char>, Vec<char>)| key_view(k)),
                forall|k: int| 0 <= k < p@.len() ==> (#[trigger] p@[k]) < i,
                forall|a: int| 0 <= a < q ==> !key_before(ks[i as int], ks[#[trigger] p@[a] as int]),
            decreases p.len() - q,
        {
            q = q + 1;
        }
        let ghost old_p = p@;
        proof {
            if q < p.len() {
                assert(key_before(ks[i as int], ks[old_p[q as int] as int]));
                assert forall|l: int| q <= l < i implies key_before(ks[i as int], ks[#[trigger] old_p[l] as int]) by {
                    if l > q {
                        assert(!key_before(sub[old_p[l] as int], sub[old_p[q as int] as int]));
                        lemma_key_mixed(ks[i as int], ks[old_p[q as int] as int], ks[old_p[l] as int]);
                    }
                }
            }
        }
        p.insert(q, i);
        proof {
            let np = p@;
            assert(np =~= old_p.insert(q as int, i));
            assert forall|k: int| 0 <= k < i + 1 implies (#[trigger] np[k]) < i + 1 by {
                if k < q {
                    assert(np[k] == old_p[k]);
                } else if k > q {
                    assert(np[k] == old_p[k - 1]);
                }
            }
            assert forall|k: int, l: int| 0 <= k < l < i + 1 implies #[trigger] np[k] != #[trigger] np[l] by {
                if k < q && l < q {
                    assert(np[k] == old_p[k] && np[l] == old_p[l]);
                } else if k < q && l == q {
                    assert(np[k] == old_p[k]);
                } else if k < q && l > q {
                    assert(np[k] == old_p[k] && np[l] == old_p[l - 1]);
                } else if k == q {
                    assert(np[l] == old_p[l - 1]);
                } else {
                    assert(np[k] == old_p[k - 1] && np[l] == old_p[l - 1]);
                }
            }
            assert forall|k: int, l: int| 0 <= k < l < i + 1 implies !key_before(sub2[#[trigger] np[l] as int], sub2[#[trigger] np[k] as int]) by {
                if k < q && l < q {
                    assert(np[k] == old_p[k] && np[l] == old_p[l]);
                    assert(!key_before(sub[old_p[l] as int], sub[old_p[k] as int]));
                } else if k < q && l == q {
                    assert(np[k] == old_p[k]);
                } else if k < q && l > q {
                    assert(np[k] == old_p[k] && np[l] == old_p[l - 1]);
                    assert(!key_before(sub[old_p[l - 1] as int], sub[old_p[k] as int]));
                } else if k == q {
                    assert(np[l] == old_p[l - 1]);
                    lemma_key_asym(ks[i as int], ks[np[l] as int]);
                } else {
                    assert(np[k] == old_p[k - 1] && np[l] == old_p[l - 1]);
                    assert(!key_before(sub[old_p[l - 1] as int], sub[old_p[k - 1] as int]));
                }
            }
            assert forall|k: int, l: int| 0 <= k < l < i + 1 && !key_before(sub2[#[trigger] np[k] as int], sub2[#[trigger] np[l] as int]) implies np[k] < np[l] by {
                if k < q && l < q {
                    assert(np[k] == old_p[k] && np[l] == old_p[l]);
                    assert(!key_before(sub[old_p[k] as int], sub[old_p[l] as int]));
                } else if k < q && l == q {
                    assert(np[k] == old_p[k]);
                } else if k < q && l > q {
                    assert(np[k] == old_p[k] && np[l] == old_p[l - 1]);
                    assert(!key_before(sub[old_p[k] as int], sub[old_p[l - 1] as int]));
                } else if k == q {
                    assert(np[l] == old_p[l - 1]);
                } else {
                    assert(np[k] == old_p[k - 1] && np[l] == old_p[l - 1]);
                    assert(!key_before(sub[old_p[k - 1] as int], sub[old_p[l - 1] as int]));
                }
            }
        }
        i = i + 1;
    }
    assert(ks.subrange(0, n as int) =~= ks);
    p
}

} // verus!
