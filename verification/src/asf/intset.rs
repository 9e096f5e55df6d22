//! Canonical forms of integer sets.
//!
//! A set of integers is written down as the sequence of its members in
//! strictly increasing order.  Every finite set has exactly one such
//! sequence, so two lists hold the same members precisely when their
//! canonical forms are equal.

use vstd::prelude::*;

verus! {

/// An integer-like key: a value that stands for exactly one integer.
pub trait IntKey: Copy {
    /// The integer this key stands for.
    spec fn rank(self) -> int;

    /// Distinct keys stand for distinct integers.
    proof fn rank_injective(a: Self, b: Self)
        requires
            a.rank() == b.rank(),
        ensures
            a == b,
    ;

    /// Compares two keys by the integers they stand for.
    fn less(&self, other: &Self) -> (r: bool)
        ensures
            r == (self.rank() < other.rank()),
    ;
}

impl IntKey for i32 {
    open spec fn rank(self) -> int {
        self as int
    }

    proof fn rank_injective(a: Self, b: Self) {
    }

    fn less(&self, other: &Self) -> (r: bool) {
        *self < *other
    }
}

impl IntKey for usize {
    open spec fn rank(self) -> int {
        self as int
    }

    proof fn rank_injective(a: Self, b: Self) {
    }

    fn less(&self, other: &Self) -> (r: bool) {
        *self < *other
    }
}

/// Every member is smaller than all members after it.
pub open spec fn strictly_increasing<K: IntKey>(s: Seq<K>) -> bool {
    forall|i: int, j: int| 0 <= i < j < s.len() ==> (#[trigger] s[i]).rank() < (#[trigger] s[j]).rank()
}

/// The two sequences hold the same members, order and repetition aside.
pub open spec fn same_members<K: IntKey>(a: Seq<K>, b: Seq<K>) -> bool {
    forall|x: K| a.contains(x) <==> b.contains(x)
}

/// `c` is the canonical form of `s`: the members of `s`, each once, in
/// increasing order.
pub open spec fn is_canonical_form<K: IntKey>(c: Seq<K>, s: Seq<K>) -> bool {
    strictly_increasing(c) && same_members(c, s)
}

/// A strictly increasing sequence is determined by its members.
pub proof fn lemma_canonical_unique<K: IntKey>(a: Seq<K>, b: Seq<K>)
    requires
        strictly_increasing(a),
        strictly_increasing(b),
        same_members(a, b),
    ensures
        a == b,
    decreases a.len(),
{
    if a.len() == 0 {
        if b.len() > 0 {
            assert(b.contains(b[0]));
            assert(a.contains(b[0]));
        }
        assert(a =~= b);
    } else if b.len() == 0 {
        assert(a.contains(a[0]));
        assert(b.contains(a[0]));
    } else {
        let la = a.last();
        let lb = b.last();
        assert(a.contains(la));
        assert(b.contains(lb));
        assert(b.contains(la));
        assert(a.contains(lb));
        let i = choose|i: int| 0 <= i < b.len() && b[i] == la;
        let j = choose|j: int| 0 <= j < a.len() && a[j] == lb;
        // la is the largest member of a and lb the largest of b
        assert(la.rank() <= lb.rank());
        assert(lb.rank() <= la.rank());
        K::rank_injective(la, lb);
        let a0 = a.drop_last();
        let b0 = b.drop_last();
        assert forall|x: K| a0.contains(x) <==> b0.contains(x) by {
            if a0.contains(x) {
                let k = choose|k: int| 0 <= k < a0.len() && a0[k] == x;
                assert(a[k] == x);
                assert(a.contains(x));
                assert(x.rank() < la.rank());
                let m = choose|m: int| 0 <= m < b.len() && b[m] == x;
                assert(m != b.len() - 1);
                assert(b0[m] == x);
            }
            if b0.contains(x) {
                let k = choose|k: int| 0 <= k < b0.len() && b0[k] == x;
                assert(b[k] == x);
                assert(b.contains(x));
                assert(x.rank() < lb.rank());
                let m = choose|m: int| 0 <= m < a.len() && a[m] == x;
                assert(m != a.len() - 1);
                assert(a0[m] == x);
            }
        }
        assert(strictly_increasing(a0)) by {
            assert forall|p: int, q: int| 0 <= p < q < a0.len() implies (#[trigger] a0[p]).rank() < (#[trigger] a0[q]).rank() by {
                assert(a0[p] == a[p] && a0[q] == a[q]);
            }
        }
        assert(strictly_increasing(b0)) by {
            assert forall|p: int, q: int| 0 <= p < q < b0.len() implies (#[trigger] b0[p]).rank() < (#[trigger] b0[q]).rank() by {
                assert(b0[p] == b[p] && b0[q] == b[q]);
            }
        }
        lemma_canonical_unique(a0, b0);
        assert(a =~= a0.push(la));
        assert(b =~= b0.push(lb));
    }
}

/// Lists with the same members have the same canonical form.
pub proof fn lemma_canonical_form_of_same_members<K: IntKey>(
    c1: Seq<K>,
    s1: Seq<K>,
    c2: Seq<K>,
    s2: Seq<K>,
)
    requires
        is_canonical_form(c1, s1),
        is_canonical_form(c2, s2),
        same_members(s1, s2),
    ensures
        c1 == c2,
{
    lemma_canonical_unique(c1, c2);
}

/// Returns the members of `ids`, each once, in increasing order.
pub fn canonicalize<K: IntKey>(ids: &Vec<K>) -> (r: Vec<K>)
    ensures
        is_canonical_form(r@, ids@),
{
    let mut out: Vec<K> = Vec::new();
    let mut n: usize = 0;
    while n < ids.len()
        invariant
            n <= ids.len(),
            strictly_increasing(out@),
            forall|x: K| out@.contains(x) <==> ids@.subrange(0, n as int).contains(x),
        decreases ids.len() - n,
    {
        let x = ids[n];
        let ghost before = out@;
        let ghost seen = ids@.subrange(0, n as int);
        // the first position whose member is not below x
        let mut p: usize = 0;
        while p < out.len() && out[p].less(&x)
            invariant
                p <= out.len(),
                forall|i: int| 0 <= i < p ==> (#[trigger] out@[i]).rank() < x.rank(),
            decreases out.len() - p,
        {
            p += 1;
        }
        let present = p < out.len() && !x.less(&out[p]);
        if present {
            proof {
                K::rank_injective(out@[p as int], x);
                assert(out@.contains(x));
            }
        } else {
            out.insert(p, x);
            proof {
                assert(out@ == before.insert(p as int, x));
                assert forall|i: int, j: int| 0 <= i < j < out@.len() implies (#[trigger] out@[i]).rank() < (
                #[trigger] out@[j]).rank() by {
                    if i < p {
                        assert(out@[i] == before[i]);
                    } else if i > p {
                        assert(out@[i] == before[i - 1]);
                    }
                    if j < p {
                        assert(out@[j] == before[j]);
                    } else if j > p {
                        assert(out@[j] == before[j - 1]);
                    }
                }
                assert(out@[p as int] == x);
            }
        }
        proof {
            let next = ids@.subrange(0, n as int + 1);
            assert(next =~= seen.push(x));
            assert forall|y: K| out@.contains(y) <==> next.contains(y) by {
                if out@.contains(y) {
                    let i = choose|i: int| 0 <= i < out@.len() && out@[i] == y;
                    if present {
                        assert(seen.contains(y));
                        let k = choose|k: int| 0 <= k < seen.len() && seen[k] == y;
                        assert(next[k] == y);
                    } else if i == p {
                        assert(next[n as int] == y);
                    } else {
                        if i < p {
                            assert(before[i] == y);
                        } else {
                            assert(before[i - 1] == y);
                        }
                        assert(before.contains(y));
                        let k = choose|k: int| 0 <= k < seen.len() && seen[k] == y;
                        assert(next[k] == y);
                    }
                }
                if next.contains(y) {
                    let k = choose|k: int| 0 <= k < next.len() && next[k] == y;
                    if k == n {
                        assert(out@.contains(x));
                    } else {
                        assert(seen[k] == y);
                        assert(seen.contains(y));
                        assert(before.contains(y));
                        let i = choose|i: int| 0 <= i < before.len() && before[i] == y;
                        if present {
                        } else if i < p {
                            assert(out@[i] == y);
                        } else {
                            assert(out@[i + 1] == y);
                        }
                    }
                }
            }
        }
        n += 1;
    }
    proof {
        assert(ids@.subrange(0, n as int) =~= ids@);
    }
    out
}

/// Whether two lists are equal, member by member.
pub fn same_items<K: IntKey>(a: &Vec<K>, b: &Vec<K>) -> (r: bool)
    ensures
        r == (a@ == b@),
{
    if a.len() != b.len() {
        return false;
    }
    let mut i: usize = 0;
    while i < a.len()
        invariant
            i <= a.len(),
            a.len() == b.len(),
            forall|k: int| 0 <= k < i ==> a@[k] == b@[k],
        decreases a.len() - i,
    {
        if a[i].less(&b[i]) || b[i].less(&a[i]) {
            return false;
        }
        proof {
            K::rank_injective(a@[i as int], b@[i as int]);
        }
        i += 1;
    }
    proof {
        assert(a@ =~= b@);
    }
    true
}

} // verus!
