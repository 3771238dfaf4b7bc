//! Lexicographic order on byte strings.
use vstd::prelude::*;

verus! {

/// The first `i` bytes of `a` and `b` agree.
pub open spec fn agree_upto(a: Seq<u8>, b: Seq<u8>, i: int) -> bool {
    forall|j: int| 0 <= j < i ==> a[j] == b[j]
}

/// `a` and `b` first differ at position `i`, and `a` is the smaller one there.
pub open spec fn lt_at(a: Seq<u8>, b: Seq<u8>, i: int) -> bool {
    &&& 0 <= i <= a.len()
    &&& i < b.len()
    &&& agree_upto(a, b, i)
    &&& (i == a.len() || a[i] < b[i])
}

/// Strict lexicographic order: `a` is a proper prefix of `b`, or at the first
/// position where they differ `a` holds the smaller byte.
pub open spec fn bytes_lt(a: Seq<u8>, b: Seq<u8>) -> bool {
    exists|i: int| #[trigger] lt_at(a, b, i)
}

pub proof fn lemma_bytes_lt_irreflexive(a: Seq<u8>)
    ensures
        !bytes_lt(a, a),
{
}

pub proof fn lemma_bytes_lt_asymmetric(a: Seq<u8>, b: Seq<u8>)
    ensures
        !(bytes_lt(a, b) && bytes_lt(b, a)),
{
    if bytes_lt(a, b) && bytes_lt(b, a) {
        let i = choose|i: int| lt_at(a, b, i);
        let j = choose|j: int| lt_at(b, a, j);
        if i < j {
            assert(a[i] == b[i]);
        } else if j < i {
            assert(a[j] == b[j]);
        }
    }
}

pub proof fn lemma_bytes_lt_transitive(a: Seq<u8>, b: Seq<u8>, c: Seq<u8>)
    requires
        bytes_lt(a, b),
        bytes_lt(b, c),
    ensures
        bytes_lt(a, c),
{
    let i = choose|i: int| lt_at(a, b, i);
    let j = choose|j: int| lt_at(b, c, j);
    if i < j {
        assert(lt_at(a, c, i));
    } else if j < i {
        assert(lt_at(a, c, j));
    } else {
        assert(lt_at(a, c, i));
    }
}

/// Any two byte strings are equal or ordered one way or the other.
pub proof fn lemma_bytes_lt_total(a: Seq<u8>, b: Seq<u8>)
    ensures
        a == b || bytes_lt(a, b) || bytes_lt(b, a),
{
    if a != b {
        let n = if a.len() < b.len() { a.len() as int } else { b.len() as int };
        if agree_upto(a, b, n) {
            if a.len() < b.len() {
                assert(lt_at(a, b, a.len() as int));
            } else if b.len() < a.len() {
                assert(lt_at(b, a, b.len() as int));
            } else {
                assert(a =~= b);
            }
        } else {
            let k = choose|k: int| 0 <= k < n && a[k] != b[k];
            lemma_first_difference(a, b, k);
        }
    }
}

proof fn lemma_first_difference(a: Seq<u8>, b: Seq<u8>, k: int)
    requires
        0 <= k < a.len(),
        k < b.len(),
        a[k] != b[k],
    ensures
        bytes_lt(a, b) || bytes_lt(b, a),
    decreases k,
{
    if agree_upto(a, b, k) {
        if a[k] < b[k] {
            assert(lt_at(a, b, k));
        } else {
            assert(lt_at(b, a, k));
        }
    } else {
        let m = choose|m: int| 0 <= m < k && a[m] != b[m];
        lemma_first_difference(a, b, m);
    }
}

/// Compares two byte strings lexicographically.
pub fn compare_bytes(a: &[u8], b: &[u8]) -> (r: core::cmp::Ordering)
    ensures
        r == core::cmp::Ordering::Less <==> bytes_lt(a@, b@),
        r == core::cmp::Ordering::Equal <==> a@ == b@,
        r == core::cmp::Ordering::Greater <==> bytes_lt(b@, a@),
{
    proof {
        lemma_bytes_lt_irreflexive(a@);
        lemma_bytes_lt_asymmetric(a@, b@);
    }
    let n: usize = if a.len() < b.len() { a.len() } else { b.len() };
    let mut i: usize = 0;
    while i < n
        invariant
            n <= a.len(),
            n <= b.len(),
            n == a.len() || n == b.len(),
            i <= n,
            agree_upto(a@, b@, i as int),
        decreases n - i,
    {
        if a[i] < b[i] {
            assert(lt_at(a@, b@, i as int));
            return core::cmp::Ordering::Less;
        } else if a[i] > b[i] {
            assert(lt_at(b@, a@, i as int));
            return core::cmp::Ordering::Greater;
        }
        i += 1;
    }
    if a.len() < b.len() {
        assert(lt_at(a@, b@, i as int));
        core::cmp::Ordering::Less
    } else if b.len() < a.len() {
        assert(lt_at(b@, a@, i as int));
        core::cmp::Ordering::Greater
    } else {
        assert(a@ =~= b@);
        core::cmp::Ordering::Equal
    }
}

} // verus!
