//! Ordering of the installed-font list: each family once, in order of first
//! appearance, then sorted by lower-cased family name, ties kept in order.
use vstd::prelude::*;
use crate::font_builder::{lower_of, lowercase};
use crate::text::same_text;

verus! {

/// An installed font family and the file of its first face.
#[derive(Debug, Clone)]
pub struct SystemFontInfo {
    pub family: String,
    pub path: String,
}

/// Whether `x` occurs in `s`.
pub open spec fn occurs(s: Seq<Seq<char>>, x: Seq<char>) -> bool {
    exists|i: int| 0 <= i < s.len() && #[trigger] s[i] == x
}

/// The names of `s` at their first occurrence, in order.
pub open spec fn first_occurrences(s: Seq<Seq<char>>) -> Seq<Seq<char>>
    decreases s.len(),
{
    if s.len() == 0 {
        Seq::empty()
    } else {
        let prev = first_occurrences(s.drop_last());
        if occurs(s.drop_last(), s.last()) { prev } else { prev.push(s.last()) }
    }
}

proof fn lemma_firsts_occur(s: Seq<Seq<char>>, x: Seq<char>)
    ensures
        occurs(first_occurrences(s), x) == occurs(s, x),
    decreases s.len(),
{
    if s.len() > 0 {
        let p = s.drop_last();
        lemma_firsts_occur(p, x);
        let fp = first_occurrences(p);
        let f = first_occurrences(s);
        assert forall|i: int| 0 <= i < fp.len() implies f[i] == fp[i] by {}
        if occurs(s, x) {
            let i = choose|i: int| 0 <= i < s.len() && #[trigger] s[i] == x;
            if i < p.len() {
                assert(p[i] == x);
                let k = choose|k: int| 0 <= k < fp.len() && #[trigger] fp[k] == x;
                assert(f[k] == x);
            } else {
                if occurs(p, x) {
                    let k = choose|k: int| 0 <= k < fp.len() && #[trigger] fp[k] == x;
                    assert(f[k] == x);
                } else {
                    assert(f[f.len() - 1] == x);
                }
            }
        }
        if occurs(f, x) {
            let i = choose|i: int| 0 <= i < f.len() && #[trigger] f[i] == x;
            if i < fp.len() {
                assert(fp[i] == x);
                let k = choose|k: int| 0 <= k < p.len() && #[trigger] p[k] == x;
                assert(s[k] == x);
            } else {
                assert(s[s.len() - 1] == x);
            }
        }
    }
}

/// Keeps each name at its first occurrence.
pub fn unique_names(names: &Vec<String>) -> (r: Vec<String>)
    ensures
        r@.map_values(|n: String| n@) == first_occurrences(names@.map_values(|n: String| n@)),
{
    let ghost all = names@.map_values(|n: String| n@);
    let mut out: Vec<String> = Vec::new();
    let n = names.len();
    let mut i: usize = 0;
    while i < n
        invariant
            n == names@.len(),
            all == names@.map_values(|n: String| n@),
            i <= n,
            out@.map_values(|n: String| n@) == first_occurrences(all.take(i as int)),
        decreases n - i,
    {
        let name = &names[i];
        let ghost prefix = all.take(i as int);
        assert(all.take(i + 1).drop_last() =~= prefix);
        assert(all.take(i + 1).last() == name@);
        let mut seen = false;
        let mut j: usize = 0;
        while j < out.len()
            invariant
                j <= out@.len(),
                seen == exists|k: int| 0 <= k < j && #[trigger] out@[k]@ == name@,
            decreases out@.len() - j,
        {
            if same_text(out[j].as_str(), name.as_str()) {
                seen = true;
            }
            j = j + 1;
        }
        proof {
            lemma_firsts_occur(prefix, name@);
            let f = out@.map_values(|n: String| n@);
            if seen {
                let k = choose|k: int| 0 <= k < j && #[trigger] out@[k]@ == name@;
                assert(f[k] == name@);
            }
            if occurs(f, name@) {
                let k = choose|k: int| 0 <= k < f.len() && #[trigger] f[k] == name@;
                assert(out@[k]@ == name@);
            }
        }
        if !seen {
            out.push(name.clone());
        }
        i = i + 1;
        assert(out@.map_values(|n: String| n@) =~= first_occurrences(all.take(i as int)));
    }
    assert(all.take(n as int) =~= all);
    out
}

/// Code-point order on strings (the order of their UTF-8 bytes): a proper
/// prefix comes first, else the first differing character decides.
pub open spec fn text_lt(a: Seq<char>, b: Seq<char>) -> bool
    decreases a.len(),
{
    if a.len() == 0 {
        b.len() > 0
    } else if b.len() == 0 {
        false
    } else if a[0] != b[0] {
        (a[0] as u32) < (b[0] as u32)
    } else {
        text_lt(a.skip(1), b.skip(1))
    }
}

/// Of two different strings exactly one comes first.
pub proof fn lemma_text_lt_trichotomy(a: Seq<char>, b: Seq<char>)
    ensures
        a != b ==> (text_lt(a, b) || text_lt(b, a)),
        !(text_lt(a, b) && text_lt(b, a)),
        text_lt(a, b) ==> a != b,
    decreases a.len(),
{
    if a.len() > 0 && b.len() > 0 && a[0] == b[0] {
        lemma_text_lt_trichotomy(a.skip(1), b.skip(1));
        if a.skip(1) == b.skip(1) {
            assert(a =~= seq![a[0]] + a.skip(1));
            assert(b =~= seq![b[0]] + b.skip(1));
        }
    }
    if a.len() > 0 && b.len() > 0 && a[0] != b[0] {
        lemma_char_order(a[0], b[0]);
    }
    if a.len() == 0 && b.len() == 0 {
        assert(a =~= b);
    }
}

proof fn lemma_char_order(c: char, d: char)
    requires
        c != d,
    ensures
        (c as u32) != (d as u32),
{
}

/// Compares two strings in code-point order.
pub fn text_less(a: &str, b: &str) -> (r: bool)
    ensures
        r == text_lt(a@, b@),
{
    let n = a.unicode_len();
    let m = b.unicode_len();
    let mut i: usize = 0;
    assert(a@.skip(0) =~= a@);
    assert(b@.skip(0) =~= b@);
    while i < n && i < m
        invariant
            n == a@.len(),
            m == b@.len(),
            i <= n,
            i <= m,
            text_lt(a@, b@) == text_lt(a@.skip(i as int), b@.skip(i as int)),
        decreases n - i,
    {
        let c = a.get_char(i);
        let d = b.get_char(i);
        assert(a@.skip(i as int)[0] == c);
        assert(b@.skip(i as int)[0] == d);
        if c != d {
            proof {
                lemma_char_order(c, d);
            }
            return (c as u32) < (d as u32);
        }
        assert(a@.skip(i as int).skip(1) =~= a@.skip(i + 1));
        assert(b@.skip(i as int).skip(1) =~= b@.skip(i + 1));
        i = i + 1;
    }
    i == n && i < m
}

/// Whether entry `i` of a list whose sort keys are `keys` goes before entry
/// `j`: by key, and by position between equal keys.
pub open spec fn placed_before(keys: Seq<Seq<char>>, i: int, j: int) -> bool {
    text_lt(keys[i], keys[j]) || (keys[i] == keys[j] && i < j)
}

/// The sort key of each font: its lower-cased family name.
pub open spec fn family_keys(fonts: Seq<SystemFontInfo>) -> Seq<Seq<char>> {
    fonts.map_values(|f: SystemFontInfo| lower_of(f.family@))
}

/// `order` lists each position below `n` once.
pub open spec fn is_order_of(order: Seq<int>, n: nat) -> bool {
    &&& order.len() == n
    &&& forall|k: int| 0 <= k < n ==> 0 <= #[trigger] order[k] < n
    &&& forall|a: int, b: int| 0 <= a < b < n ==> order[a] != order[b]
}

/// The fonts sorted by lower-cased family name; fonts whose names differ
/// only in case keep their order.
pub fn sort_by_family(fonts: &Vec<SystemFontInfo>) -> (r: Vec<SystemFontInfo>)
    ensures
        exists|order: Seq<int>|
            #[trigger] is_order_of(order, fonts@.len()) && r@.len() == fonts@.len() && (forall|k: int|
                0 <= k < r@.len() ==> r@[k] == fonts@[order[k]]) && (forall|k: int|
                0 <= k < r@.len() - 1 ==> placed_before(
                    family_keys(fonts@),
                    #[trigger] order[k],
                    order[k + 1],
                )),
{
    let n = fonts.len();
    let mut keys: Vec<String> = Vec::new();
    let mut i: usize = 0;
    while i < n
        invariant
            n == fonts@.len(),
            i <= n,
            keys@.len() == i,
            forall|k: int| 0 <= k < i ==> #[trigger] keys@[k]@ == family_keys(fonts@)[k],
        decreases n - i,
    {
        keys.push(lowercase(fonts[i].family.as_str()));
        i = i + 1;
    }
    let ghost fk = family_keys(fonts@);
    let mut idx: Vec<usize> = Vec::new();
    let mut i: usize = 0;
    while i < n
        invariant
            n == fonts@.len(),
            keys@.len() == n,
            fk == family_keys(fonts@),
            forall|k: int| 0 <= k < n ==> #[trigger] keys@[k]@ == fk[k],
            i <= n,
            idx@.len() == i,
            forall|k: int| 0 <= k < i ==> #[trigger] idx@[k] < i,
            forall|a: int, b: int| 0 <= a < b < i ==> idx@[a] != idx@[b],
            forall|k: int| 0 <= k < i - 1 ==> placed_before(fk, #[trigger] idx@[k] as int, idx@[k + 1] as int),
        decreases n - i,
    {
        let mut j: usize = i;
        while j > 0 && text_less(keys[i].as_str(), keys[idx[j - 1]].as_str())
            invariant
                keys@.len() == n,
                i < n,
                idx@.len() == i,
                forall|k: int| 0 <= k < i ==> #[trigger] idx@[k] < i,
                forall|k: int| 0 <= k < n ==> #[trigger] keys@[k]@ == fk[k],
                j <= i,
                forall|k: int| j <= k < i ==> text_lt(fk[i as int], fk[#[trigger] idx@[k] as int]),
            decreases j,
        {
            j = j - 1;
        }
        let ghost before = idx@;
        proof {
            if j > 0 {
                lemma_text_lt_trichotomy(fk[i as int], fk[before[j - 1] as int]);
                assert(placed_before(fk, before[j - 1] as int, i as int));
            }
        }
        idx.insert(j, i);
        proof {
            assert forall|k: int| 0 <= k < i + 1 implies #[trigger] idx@[k] < i + 1 by {
                if k < j {
                    assert(idx@[k] == before[k]);
                } else if k > j {
                    assert(idx@[k] == before[k - 1]);
                }
            }
            assert forall|a: int, b: int| 0 <= a < b < i + 1 implies idx@[a] != idx@[b] by {
                if a != j && b != j {
                    let a0 = if a < j { a } else { a - 1 };
                    let b0 = if b < j { b } else { b - 1 };
                    assert(idx@[a] == before[a0]);
                    assert(idx@[b] == before[b0]);
                } else if a == j {
                    assert(idx@[b] == before[b - 1]);
                } else {
                    assert(idx@[a] == before[a]);
                }
            }
            assert forall|k: int| 0 <= k < i + 1 - 1 implies placed_before(fk, #[trigger] idx@[k] as int, idx@[k + 1] as int) by {
                if k + 1 < j {
                    assert(idx@[k] == before[k] && idx@[k + 1] == before[k + 1]);
                } else if k + 1 == j {
                    assert(idx@[k] == before[k]);
                } else if k == j {
                    assert(idx@[k + 1] == before[k]);
                } else {
                    assert(idx@[k] == before[k - 1] && idx@[k + 1] == before[k]);
                }
            }
        }
        i = i + 1;
    }
    let mut out: Vec<SystemFontInfo> = Vec::new();
    let mut k: usize = 0;
    while k < n
        invariant
            n == fonts@.len(),
            idx@.len() == n,
            forall|q: int| 0 <= q < n ==> #[trigger] idx@[q] < n,
            k <= n,
            out@.len() == k,
            forall|q: int| 0 <= q < k ==> out@[q] == fonts@[#[trigger] idx@[q] as int],
        decreases n - k,
    {
        let f = &fonts[idx[k]];
        out.push(SystemFontInfo { family: f.family.clone(), path: f.path.clone() });
        k = k + 1;
    }
    let ghost order = idx@.map_values(|v: usize| v as int);
    assert(is_order_of(order, n as nat));
    assert forall|q: int| 0 <= q < out@.len() implies out@[q] == fonts@[order[q]] by {
        assert(out@[q] == fonts@[idx@[q] as int]);
    }
    assert forall|q: int| 0 <= q < out@.len() - 1 implies placed_before(fk, #[trigger] order[q], order[q + 1]) by {
        assert(placed_before(fk, idx@[q] as int, idx@[q + 1] as int));
    }
    out
}

} // verus!
