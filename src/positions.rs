//! Position extraction: from an edit script to the columns that match, and
//! from those columns to the gaps between consecutive ones.
use vstd::prelude::*;
use crate::cigar::{total_len, match_positions, Cigar, CigarElem, CigarOp};

verus! {

/// A buffer of machine positions read as mathematical integers.
pub open spec fn as_ints(v: Seq<usize>) -> Seq<int> {
    v.map_values(|x: usize| x as int)
}

/// Each position is smaller than every later one.
pub open spec fn increasing(p: Seq<usize>) -> bool {
    forall|i: int, j: int| 0 <= i < j < p.len() ==> p[i] < p[j]
}

/// Distances between consecutive positions: `p[i + 1] - p[i]` for each `i`.
pub open spec fn gaps(p: Seq<int>) -> Seq<int> {
    if p.len() == 0 {
        seq![]
    } else {
        Seq::new((p.len() - 1) as nat, |i: int| p[i + 1] - p[i])
    }
}

/// Sum of a sequence of integers.
pub open spec fn sum(s: Seq<int>) -> int
    decreases s.len(),
{
    if s.len() == 0 {
        0
    } else {
        sum(s.drop_last()) + s.last()
    }
}

/// Starting from the first position and adding the first `i` gaps gives the
/// position at index `i`: a factor that starts at `λ^p[0]` and is multiplied
/// by `λ^gap` at each step is `λ^p[i]` at step `i`.
pub proof fn lemma_gaps_rebuild_positions(p: Seq<int>, i: int)
    requires
        0 <= i < p.len(),
    ensures
        p[0] + sum(gaps(p).take(i)) == p[i],
    decreases i,
{
    if i > 0 {
        lemma_gaps_rebuild_positions(p, i - 1);
        assert(gaps(p).take(i).drop_last() =~= gaps(p).take(i - 1));
    }
}

/// A script's length bounds the length of each of its prefixes.
proof fn lemma_total_len_prefix(ops: Seq<CigarElem>, i: int)
    requires
        0 <= i <= ops.len(),
    ensures
        total_len(ops.take(i)) <= total_len(ops),
    decreases ops.len(),
{
    if i == ops.len() {
        assert(ops.take(i) =~= ops);
    } else {
        assert(ops.take(i) =~= ops.drop_last().take(i));
        lemma_total_len_prefix(ops.drop_last(), i);
    }
}

/// Writes the match positions of `cigar` into `out`, whatever `out` held.
pub fn collect_match_positions_into(cigar: &Cigar, out: &mut Vec<usize>)
    requires
        total_len(cigar@) <= usize::MAX,
    ensures
        as_ints(final(out)@) == match_positions(cigar@),
{
    out.clear();
    let mut current_pos: usize = 0;
    let mut idx: usize = 0;
    assert(as_ints(out@) =~= match_positions(cigar@.take(0)));
    while idx < cigar.ops.len()
        invariant
            0 <= idx <= cigar@.len(),
            total_len(cigar@) <= usize::MAX,
            current_pos == total_len(cigar@.take(idx as int)),
            as_ints(out@) == match_positions(cigar@.take(idx as int)),
        decreases cigar@.len() - idx,
    {
        let elem = cigar.ops[idx];
        let count = elem.cnt as usize;
        let ghost pre = cigar@.take(idx as int);
        let ghost next = cigar@.take(idx + 1);
        proof {
            assert(next.drop_last() =~= pre);
            assert(next.last() == elem);
            lemma_total_len_prefix(cigar@, idx + 1);
        }
        if elem.op == CigarOp::Match {
            let ghost start = out@;
            let mut offset: usize = 0;
            while offset < count
                invariant
                    offset <= count,
                    current_pos + count <= usize::MAX,
                    as_ints(out@) == as_ints(start) + Seq::new(
                        offset as nat,
                        |j: int| current_pos + j,
                    ),
                decreases count - offset,
            {
                let ghost before = out@;
                out.push(current_pos + offset);
                proof {
                    assert(as_ints(out@) =~= as_ints(before).push((current_pos + offset) as int));
                    assert(as_ints(out@) =~= as_ints(start) + Seq::new(
                        (offset + 1) as nat,
                        |j: int| current_pos + j,
                    ));
                }
                offset = offset + 1;
            }
            proof {
                assert(as_ints(out@) =~= match_positions(next));
            }
        } else {
            assert(match_positions(next) == match_positions(pre));
        }
        current_pos = current_pos + count;
        idx = idx + 1;
    }
    assert(cigar@.take(cigar@.len() as int) =~= cigar@);
}

/// The columns of `cigar` that carry the match operation, in increasing order.
pub fn collect_match_positions(cigar: &Cigar) -> (r: Vec<usize>)
    requires
        total_len(cigar@) <= usize::MAX,
    ensures
        as_ints(r@) == match_positions(cigar@),
{
    let mut out: Vec<usize> = Vec::new();
    collect_match_positions_into(cigar, &mut out);
    out
}

/// Writes into `out`, whatever it held, the distance from each position in
/// `pos` to the next one.
pub fn gap_exponents_into(pos: &Vec<usize>, out: &mut Vec<usize>)
    requires
        increasing(pos@),
    ensures
        as_ints(final(out)@) == gaps(as_ints(pos@)),
{
    out.clear();
    if pos.len() == 0 {
        assert(as_ints(out@) =~= gaps(as_ints(pos@)));
        return;
    }
    let n = pos.len() - 1;
    let mut i: usize = 0;
    while i < n
        invariant
            n == pos@.len() - 1,
            i <= n,
            increasing(pos@),
            as_ints(out@) =~= Seq::new(i as nat, |t: int| pos@[t + 1] as int - pos@[t] as int),
        decreases n - i,
    {
        let ghost before = out@;
        out.push(pos[i + 1] - pos[i]);
        assert(as_ints(out@) =~= as_ints(before).push(pos@[i as int + 1] as int - pos@[i as int] as int));
        i = i + 1;
    }
    assert(as_ints(out@) =~= gaps(as_ints(pos@)));
}

/// The distance from each position in `pos` to the next one: one fewer
/// than there are positions, none for an empty list.
pub fn gap_exponents(pos: &Vec<usize>) -> (r: Vec<usize>)
    requires
        increasing(pos@),
    ensures
        as_ints(r@) == gaps(as_ints(pos@)),
{
    let mut out: Vec<usize> = Vec::new();
    gap_exponents_into(pos, &mut out);
    out
}

} // verus!
