//! The edit script: an ordered list of operations with run lengths.
use vstd::prelude::*;

verus! {

/// The kind of one alignment column.
#[derive(Clone, Copy, Debug, PartialEq, Eq, Structural)]
pub enum CigarOp {
    Match,
    Sub,
    Del,
    Ins,
}

/// A run of `cnt` consecutive columns that share the operation `op`.
#[derive(Clone, Copy, Debug, PartialEq, Eq, Structural)]
pub struct CigarElem {
    pub op: CigarOp,
    pub cnt: u32,
}

/// An edit script, read left to right; position 0 is the first column.
#[derive(Debug)]
pub struct Cigar {
    pub ops: Vec<CigarElem>,
}

impl CigarElem {
    pub fn new(op: CigarOp, cnt: u32) -> (r: Self)
        ensures
            r.op == op,
            r.cnt == cnt,
    {
        CigarElem { op, cnt }
    }
}

impl Cigar {
    pub open spec fn view(&self) -> Seq<CigarElem> {
        self.ops@
    }

    /// Builds a script from its runs, in order.
    pub fn from_runs(ops: Vec<CigarElem>) -> (r: Self)
        ensures
            r@ == ops@,
    {
        Cigar { ops }
    }
}

/// Number of columns the script spans.
pub open spec fn total_len(ops: Seq<CigarElem>) -> nat
    decreases ops.len(),
{
    if ops.len() == 0 {
        0
    } else {
        total_len(ops.drop_last()) + ops.last().cnt as nat
    }
}

/// Number of columns that carry the match operation.
pub open spec fn match_count(ops: Seq<CigarElem>) -> nat
    decreases ops.len(),
{
    if ops.len() == 0 {
        0
    } else if ops.last().op is Match {
        match_count(ops.drop_last()) + ops.last().cnt as nat
    } else {
        match_count(ops.drop_last())
    }
}

/// The columns that carry the match operation, in increasing order: a
/// matching run of length `c` that starts at column `s` adds `s, ..., s + c - 1`.
pub open spec fn match_positions(ops: Seq<CigarElem>) -> Seq<int>
    decreases ops.len(),
{
    if ops.len() == 0 {
        seq![]
    } else {
        let pre = ops.drop_last();
        let e = ops.last();
        if e.op is Match {
            match_positions(pre) + Seq::new(e.cnt as nat, |j: int| total_len(pre) + j)
        } else {
            match_positions(pre)
        }
    }
}

/// The match positions of a script are strictly increasing, lie inside the
/// script, and there is one for each matching column.
pub proof fn lemma_match_positions_shape(ops: Seq<CigarElem>)
    ensures
        match_positions(ops).len() == match_count(ops),
        forall|i: int| 0 <= i < match_positions(ops).len()
            ==> 0 <= #[trigger] match_positions(ops)[i] < total_len(ops),
        forall|i: int, j: int| 0 <= i < j < match_positions(ops).len()
            ==> match_positions(ops)[i] < match_positions(ops)[j],
    decreases ops.len(),
{
    if ops.len() > 0 {
        let pre = ops.drop_last();
        lemma_match_positions_shape(pre);
    }
}

} // verus!
