//! Sorted codepoint sets: strictly increasing lists and their union with
//! closed intervals.
use vstd::prelude::*;

verus! {

/// A Unicode scalar value: at most `0x10FFFF` and not a surrogate.
pub open spec fn is_scalar(cp: u32) -> bool {
    cp <= 0x10FFFF && !(0xD800 <= cp && cp <= 0xDFFF)
}

/// A character's value is a Unicode scalar value.
pub proof fn lemma_char_is_scalar(c: char)
    ensures
        is_scalar(c as u32),
{
}

/// Every element is below every later one.
pub open spec fn strictly_increasing(s: Seq<u32>) -> bool {
    forall|i: int, j: int| 0 <= i < j < s.len() ==> s[i] < s[j]
}

/// `lo ..= hi` as a list (empty when `lo > hi`).
pub open spec fn interval(lo: u32, hi: u32) -> Seq<u32> {
    Seq::new(
        if lo <= hi { (hi - lo + 1) as nat } else { 0 },
        |k: int| (lo + k) as u32,
    )
}

/// Adds every value of `lo ..= hi` (none when `lo > hi`) to a strictly
/// increasing list, keeping it strictly increasing.
pub fn merge_interval(v: &Vec<u32>, lo: u32, hi: u32) -> (r: Vec<u32>)
    requires
        strictly_increasing(v@),
    ensures
        strictly_increasing(r@),
        forall|x: u32| r@.contains(x) <==> (v@.contains(x) || (lo <= x && x <= hi)),
{
    let n = v.len();
    let mut r: Vec<u32> = Vec::new();
    let mut i: usize = 0;
    while i < n && v[i] < lo
        invariant
            n == v@.len(),
            i <= n,
            strictly_increasing(v@),
            r@ == v@.take(i as int),
            forall|k: int| 0 <= k < i ==> v@[k] < lo,
        decreases n - i,
    {
        r.push(v[i]);
        i = i + 1;
        assert(r@ =~= v@.take(i as int));
    }
    let i1 = i;
    let mut c: u64 = lo as u64;
    while c <= hi as u64
        invariant
            lo <= c,
            c <= hi as u64 + 1 || c == lo,
            r@ == v@.take(i1 as int) + Seq::new((c - lo) as nat, |k: int| (lo + k) as u32),
        decreases hi as u64 + 1 - c,
    {
        r.push(c as u32);
        c = c + 1;
        assert(r@ =~= v@.take(i1 as int) + Seq::new((c - lo) as nat, |k: int| (lo + k) as u32));
    }
    assert(r@ =~= v@.take(i1 as int) + interval(lo, hi));
    while i < n && v[i] <= hi
        invariant
            n == v@.len(),
            i1 <= i <= n,
            strictly_increasing(v@),
            forall|k: int| i1 <= k < i ==> lo <= #[trigger] v@[k] <= hi,
            i1 < n ==> lo <= v@[i1 as int],
        decreases n - i,
    {
        i = i + 1;
    }
    let i2 = i;
    let ghost mid = r@;
    while i < n
        invariant
            n == v@.len(),
            i2 <= i <= n,
            r@ == mid + v@.subrange(i2 as int, i as int),
        decreases n - i,
    {
        r.push(v[i]);
        i = i + 1;
        assert(r@ =~= mid + v@.subrange(i2 as int, i as int));
    }
    proof {
        let a = v@.take(i1 as int);
        let b = interval(lo, hi);
        let c = v@.subrange(i2 as int, n as int);
        assert(r@ =~= a + b + c);
        assert(i2 < n ==> v@[i2 as int] > hi);
        assert forall|p: int, q: int| 0 <= p < q < r@.len() implies r@[p] < r@[q] by {
            if q < a.len() + b.len() {
                if p >= a.len() {
                } else if q >= a.len() {
                    assert(r@[p] == v@[p]);
                }
            } else {
                let qq = q - a.len() - b.len() + i2;
                assert(r@[q] == v@[qq]);
                if p >= a.len() + b.len() {
                    assert(r@[p] == v@[p - a.len() - b.len() + i2]);
                } else if p < a.len() {
                    assert(r@[p] == v@[p]);
                } else {
                    assert(v@[i2 as int] <= v@[qq]);
                }
            }
        }
        assert forall|x: u32| r@.contains(x) <==> (v@.contains(x) || (lo <= x && x <= hi)) by {
            if r@.contains(x) {
                let p = choose|p: int| 0 <= p < r@.len() && r@[p] == x;
                if p < a.len() {
                    assert(v@[p] == x);
                } else if p >= a.len() + b.len() {
                    assert(v@[p - a.len() - b.len() + i2] == x);
                }
            }
            if lo <= x && x <= hi {
                assert(r@[a.len() + (x - lo)] == x);
            }
            if v@.contains(x) {
                let p = choose|p: int| 0 <= p < v@.len() && v@[p] == x;
                if p < i1 {
                    assert(r@[p] == x);
                } else if p < i2 {
                    assert(lo <= v@[p] <= hi);
                    assert(r@[a.len() + (x - lo)] == x);
                } else {
                    assert(r@[p - i2 + a.len() + b.len()] == x);
                }
            }
        }
    }
    r
}

} // verus!
