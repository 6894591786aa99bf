//! The contiguous-range index over a codepoint list: maximal runs of
//! consecutive codepoints, each pointing at the glyph-table slot of its
//! first member.
use vstd::prelude::*;

verus! {

/// A run of `range_length` consecutive codepoints from `range_start`, whose
/// glyphs begin at slot `glyph_id_start` of the glyph table.
#[derive(Debug, Clone, Copy)]
pub struct GlyphRange {
    pub range_start: u32,
    pub range_length: u32,
    pub glyph_id_start: usize,
}

/// The codepoints that one range stands for.
pub open spec fn run_codes(r: GlyphRange) -> Seq<int> {
    Seq::new(r.range_length as nat, |k: int| r.range_start + k)
}

/// Walks a range table in order, listing every codepoint it covers.
pub open spec fn expand_ranges(rs: Seq<GlyphRange>) -> Seq<int>
    decreases rs.len(),
{
    if rs.len() == 0 {
        Seq::empty()
    } else {
        expand_ranges(rs.drop_last()) + run_codes(rs.last())
    }
}

/// A codepoint list as mathematical integers.
pub open spec fn code_ints(codes: Seq<u32>) -> Seq<int> {
    codes.map_values(|c: u32| c as int)
}

/// No range could be extended into its successor.
pub open spec fn ranges_maximal(rs: Seq<GlyphRange>) -> bool {
    forall|k: int|
        0 <= k < rs.len() - 1 ==> #[trigger] rs[k + 1].range_start != rs[k].range_start
            + rs[k].range_length
}

/// Every range points at the glyph slot of its first codepoint.
pub open spec fn ranges_indexed(rs: Seq<GlyphRange>) -> bool {
    forall|k: int| 0 <= k < rs.len() ==> #[trigger] rs[k].glyph_id_start == expand_ranges(rs.take(k)).len()
}

/// The range table of a codepoint list: walking it gives back the list,
/// no range is empty, ranges are maximal, and each points at the table slot
/// of its first codepoint.
pub open spec fn describes_codes(rs: Seq<GlyphRange>, codes: Seq<u32>) -> bool {
    &&& expand_ranges(rs) == code_ints(codes)
    &&& forall|k: int| 0 <= k < rs.len() ==> #[trigger] rs[k].range_length >= 1
    &&& ranges_maximal(rs)
    &&& ranges_indexed(rs)
}

proof fn lemma_expand_push(rs: Seq<GlyphRange>, r: GlyphRange)
    ensures
        expand_ranges(rs.push(r)) == expand_ranges(rs) + run_codes(r),
{
    assert(rs.push(r).drop_last() =~= rs);
}

proof fn lemma_describes_prefix(rs: Seq<GlyphRange>, codes: Seq<u32>)
    requires
        rs.len() > 0,
        describes_codes(rs, codes),
    ensures
        code_ints(codes).len() >= rs.last().range_length,
        describes_codes(rs.drop_last(), codes.take(codes.len() - rs.last().range_length)),
        expand_ranges(rs.drop_last()).len() == codes.len() - rs.last().range_length,
        forall|j: int|
            0 <= j < rs.last().range_length ==> #[trigger] codes[codes.len() - rs.last().range_length + j]
                == rs.last().range_start + j,
        rs.last().glyph_id_start == codes.len() - rs.last().range_length,
{
    let p = rs.drop_last();
    let l = rs.last().range_length as int;
    let n = codes.len() as int;
    assert(rs[rs.len() - 1].range_length >= 1);
    assert(expand_ranges(rs) == expand_ranges(p) + run_codes(rs.last()));
    assert(expand_ranges(p) =~= code_ints(codes).take(n - l));
    assert(code_ints(codes.take(n - l)) =~= code_ints(codes).take(n - l));
    assert forall|j: int| 0 <= j < l implies #[trigger] codes[n - l + j] == rs.last().range_start + j by {
        assert(code_ints(codes)[n - l + j] == run_codes(rs.last())[j]);
    }
    assert(rs.take(rs.len() - 1) =~= p);
    assert(rs[rs.len() - 1].glyph_id_start == expand_ranges(rs.take(rs.len() - 1)).len());
    assert forall|k: int| 0 <= k < p.len() implies #[trigger] p[k].glyph_id_start == expand_ranges(p.take(k)).len() by {
        assert(p.take(k) =~= rs.take(k));
        assert(rs[k].glyph_id_start == expand_ranges(rs.take(k)).len());
    }
    assert forall|k: int| 0 <= k < p.len() - 1 implies #[trigger] p[k + 1].range_start != p[k].range_start
        + p[k].range_length by {
        assert(rs[k + 1].range_start != rs[k].range_start + rs[k].range_length);
    }
    assert forall|k: int| 0 <= k < p.len() implies #[trigger] p[k].range_length >= 1 by {
        assert(rs[k].range_length >= 1);
    }
}

proof fn lemma_last_code(rs: Seq<GlyphRange>, codes: Seq<u32>)
    requires
        rs.len() > 0,
        describes_codes(rs, codes),
    ensures
        codes.len() > 0,
        codes[codes.len() - 1] == rs.last().range_start + rs.last().range_length - 1,
{
    lemma_describes_prefix(rs, codes);
    assert(codes[codes.len() - rs.last().range_length + (rs.last().range_length - 1)] == rs.last().range_start
        + rs.last().range_length - 1);
}

/// A codepoint list has exactly one range table: the ranges are fixed by
/// the list alone, so the index is the same however often it is built.
pub proof fn lemma_range_table_unique(r1: Seq<GlyphRange>, r2: Seq<GlyphRange>, codes: Seq<u32>)
    requires
        describes_codes(r1, codes),
        describes_codes(r2, codes),
    ensures
        r1 == r2,
    decreases codes.len(),
{
    if r1.len() == 0 || r2.len() == 0 {
        if r1.len() > 0 {
            lemma_describes_prefix(r1, codes);
            assert(code_ints(codes).len() == 0);
        }
        if r2.len() > 0 {
            lemma_describes_prefix(r2, codes);
            assert(code_ints(codes).len() == 0);
        }
        assert(r1 =~= r2);
    } else {
        lemma_describes_prefix(r1, codes);
        lemma_describes_prefix(r2, codes);
        let n = codes.len() as int;
        let l1 = r1.last().range_length as int;
        let l2 = r2.last().range_length as int;
        lemma_run_split(r1, r2, codes);
        lemma_run_split(r2, r1, codes);
        assert(l1 == l2);
        assert(r1.last().range_start == codes[n - l1 + 0]);
        assert(r2.last().range_start == codes[n - l2 + 0]);
        lemma_range_table_unique(r1.drop_last(), r2.drop_last(), codes.take(n - l1));
        assert(r1 =~= r1.drop_last().push(r1.last()));
        assert(r2 =~= r2.drop_last().push(r2.last()));
    }
}

proof fn lemma_run_split(r1: Seq<GlyphRange>, r2: Seq<GlyphRange>, codes: Seq<u32>)
    requires
        r1.len() > 0,
        r2.len() > 0,
        describes_codes(r1, codes),
        describes_codes(r2, codes),
    ensures
        r1.last().range_length >= r2.last().range_length,
{
    if r1.last().range_length < r2.last().range_length {
        lemma_describes_prefix(r1, codes);
        lemma_describes_prefix(r2, codes);
        let n = codes.len() as int;
        let l1 = r1.last().range_length as int;
        let l2 = r2.last().range_length as int;
        let p = r1.drop_last();
        assert(p.len() > 0) by {
            if p.len() == 0 {
                assert(expand_ranges(p).len() == 0);
            }
        }
        lemma_last_code(p, codes.take(n - l1));
        assert(codes.take(n - l1)[n - l1 - 1] == codes[n - l1 - 1]);
        assert(r1[r1.len() - 1] == r1.last());
        assert(r1[r1.len() - 2] == p.last());
        assert(r1[r1.len() - 2 + 1].range_start != r1[r1.len() - 2].range_start + r1[r1.len() - 2].range_length);
        let a = l2 - l1 - 1;
        let b = l2 - l1;
        assert(codes[n - l2 + a] == r2.last().range_start + a);
        assert(codes[n - l2 + b] == r2.last().range_start + b);
        assert(codes[n - l1 + 0] == r1.last().range_start + 0);
    }
}

/// Builds the range table of `codes`: a new range starts wherever a
/// codepoint is not exactly one more than the one before it.
pub fn build_ranges(codes: &[u32]) -> (ranges: Vec<GlyphRange>)
    requires
        codes@.len() <= u32::MAX,
    ensures
        describes_codes(ranges@, codes@),
{
    let mut ranges: Vec<GlyphRange> = Vec::new();
    let n = codes.len();
    if n == 0 {
        assert(code_ints(codes@) =~= Seq::empty());
        return ranges;
    }
    let mut cur = GlyphRange { range_start: codes[0], range_length: 1, glyph_id_start: 0 };
    proof {
        lemma_expand_push(ranges@, cur);
        assert(run_codes(cur) =~= code_ints(codes@.take(1)));
        assert(ranges@.push(cur).take(0) =~= Seq::empty());
    }
    let mut i: usize = 1;
    while i < n
        invariant
            n == codes@.len(),
            n <= u32::MAX,
            1 <= i <= n,
            cur.range_length >= 1,
            cur.glyph_id_start + cur.range_length == i,
            codes@[i - 1] == cur.range_start + cur.range_length - 1,
            expand_ranges(ranges@.push(cur)) == code_ints(codes@.take(i as int)),
            forall|k: int| 0 <= k < ranges@.len() ==> #[trigger] ranges@[k].range_length >= 1,
            ranges_maximal(ranges@.push(cur)),
            ranges_indexed(ranges@.push(cur)),
        decreases n - i,
    {
        let prev = codes[i - 1];
        let c = codes[i];
        let ghost old_ranges = ranges@;
        let ghost old_cur = cur;
        proof {
            lemma_expand_push(old_ranges, old_cur);
            assert(code_ints(codes@.take(i + 1)) =~= code_ints(codes@.take(i as int)).push(c as int));
        }
        if prev < u32::MAX && c == prev + 1 {
            cur.range_length = cur.range_length + 1;
            proof {
                lemma_expand_push(old_ranges, cur);
                assert(run_codes(cur) =~= run_codes(old_cur).push(c as int));
                assert forall|k: int| 0 <= k < ranges@.push(cur).len() implies #[trigger] ranges@.push(cur)[k].glyph_id_start
                    == expand_ranges(ranges@.push(cur).take(k)) .len() by {
                    assert(ranges@.push(cur).take(k) =~= ranges@.push(old_cur).take(k));
                    assert(old_ranges.push(old_cur)[k].glyph_id_start == ranges@.push(cur)[k].glyph_id_start);
                }
                assert forall|k: int| 0 <= k < ranges@.push(cur).len() - 1 implies #[trigger] ranges@.push(cur)[k + 1].range_start
                    != ranges@.push(cur)[k].range_start + ranges@.push(cur)[k].range_length by {
                    assert(old_ranges.push(old_cur)[k + 1].range_start != old_ranges.push(old_cur)[k].range_start
                        + old_ranges.push(old_cur)[k].range_length);
                }
            }
        } else {
            ranges.push(cur);
            cur = GlyphRange { range_start: c, range_length: 1, glyph_id_start: i };
            proof {
                lemma_expand_push(ranges@, cur);
                assert(run_codes(cur) =~= seq![c as int]);
                assert(expand_ranges(ranges@).len() == i);
                let rs = ranges@.push(cur);
                assert forall|k: int| 0 <= k < rs.len() implies #[trigger] rs[k].glyph_id_start
                    == expand_ranges(rs.take(k)).len() by {
                    if k < ranges@.len() {
                        assert(rs.take(k) =~= ranges@.take(k));
                        assert(ranges@ == old_ranges.push(old_cur));
                        assert(rs[k] == old_ranges.push(old_cur)[k]);
                    } else {
                        assert(rs.take(k) =~= ranges@);
                    }
                }
                assert forall|k: int| 0 <= k < rs.len() - 1 implies #[trigger] rs[k + 1].range_start
                    != rs[k].range_start + rs[k].range_length by {
                    if k + 1 < ranges@.len() {
                        assert(rs[k + 1] == old_ranges.push(old_cur)[k + 1]);
                        assert(rs[k] == old_ranges.push(old_cur)[k]);
                    }
                }
            }
        }
        i = i + 1;
    }
    ranges.push(cur);
    assert(codes@.take(n as int) =~= codes@);
    ranges
}

} // verus!
