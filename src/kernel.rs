//! The kernel evaluator's integer side: validating the order `k`, choosing
//! the branch of the recurrence, and preparing the positions and the gap
//! exponents that the recurrence reads, statelessly or in reused buffers.
use vstd::prelude::*;
use crate::cigar::{lemma_match_positions_shape, match_count, match_positions, total_len, Cigar, CigarElem};
use crate::positions::{as_ints, collect_match_positions_into, gap_exponents_into, gaps, increasing};

verus! {

/// Why an evaluation cannot start.
#[derive(Clone, Copy, Debug, PartialEq, Eq, Structural)]
pub enum OrderError {
    /// The subsequence order `k` was zero.
    ZeroOrder,
}

/// The branch of the recurrence that an evaluation takes.
#[derive(Clone, Copy, Debug, PartialEq, Eq, Structural)]
pub enum Schedule {
    /// Fewer matches than the order: the score is exactly zero.
    Zero,
    /// Order one: the score is `matches · λ`.
    Linear { matches: usize },
    /// Order two or more with at least as many matches: the score is the
    /// sum of the last of `levels` levels of the decayed recurrence.
    Recurrence { levels: usize },
}

/// The branch taken for `m` matches and order `k > 0`.
pub open spec fn schedule_of(m: nat, k: nat) -> Schedule {
    if m < k {
        Schedule::Zero
    } else if k == 1 {
        Schedule::Linear { matches: m as usize }
    } else {
        Schedule::Recurrence { levels: k as usize }
    }
}

/// What an evaluation of order `k` prepares for a script: the branch, the
/// match positions, and the gap exponents, which only the recurrence
/// branch reads and which are empty otherwise.
pub open spec fn evaluation(ops: Seq<CigarElem>, k: nat) -> Result<(Schedule, Seq<int>, Seq<int>), OrderError> {
    if k == 0 {
        Err(OrderError::ZeroOrder)
    } else {
        let s = schedule_of(match_count(ops), k);
        let p = match_positions(ops);
        Ok((s, p, if s is Recurrence { gaps(p) } else { seq![] }))
    }
}

/// A script with fewer matches than the order scores exactly zero, whatever
/// the decay: the evaluation takes the zero branch and prepares no gaps.
pub proof fn lemma_fewer_matches_than_order(ops: Seq<CigarElem>, k: nat)
    requires
        match_count(ops) < k,
    ensures
        evaluation(ops, k) == Ok::<_, OrderError>((Schedule::Zero, match_positions(ops), Seq::<int>::empty())),
{
}

/// At order one the score is the match count times the decay: the
/// evaluation takes the linear branch with exactly `m` matches, or, with no
/// match at all, the zero branch.
pub proof fn lemma_order_one(ops: Seq<CigarElem>)
    requires
        total_len(ops) <= usize::MAX,
    ensures
        match_count(ops) == 0 ==> evaluation(ops, 1) == Ok::<_, OrderError>(
            (Schedule::Zero, match_positions(ops), Seq::<int>::empty()),
        ),
        match_count(ops) > 0 ==> evaluation(ops, 1) == Ok::<_, OrderError>(
            (Schedule::Linear { matches: match_count(ops) as usize }, match_positions(ops), Seq::<int>::empty()),
        ),
        match_count(ops) <= usize::MAX,
{
    lemma_match_count_bound(ops);
}

/// The result of a stateless evaluation.
#[derive(Debug)]
pub struct Plan {
    pub schedule: Schedule,
    /// The match positions of the script, in increasing order.
    pub positions: Vec<usize>,
    /// `positions[i + 1] - positions[i]` for each `i`, for the recurrence.
    pub jumps: Vec<usize>,
}

impl Plan {
    pub open spec fn view(&self) -> (Schedule, Seq<int>, Seq<int>) {
        (self.schedule, as_ints(self.positions@), as_ints(self.jumps@))
    }
}

/// A script has at most as many matching columns as columns.
proof fn lemma_match_count_bound(ops: Seq<CigarElem>)
    ensures
        match_count(ops) <= total_len(ops),
    decreases ops.len(),
{
    if ops.len() > 0 {
        lemma_match_count_bound(ops.drop_last());
    }
}

/// Machine positions that read as a strictly increasing sequence of
/// integers are increasing.
proof fn lemma_ints_increasing(v: Seq<usize>)
    requires
        forall|i: int, j: int| 0 <= i < j < as_ints(v).len() ==> as_ints(v)[i] < as_ints(v)[j],
    ensures
        increasing(v),
{
    assert forall|i: int, j: int| 0 <= i < j < v.len() implies v[i] < v[j] by {
        assert(as_ints(v)[i] < as_ints(v)[j]);
    }
}

/// Fills `pos` with the match positions of `cigar` and, for the recurrence
/// branch, `jumps` with their gaps; returns the branch for order `k > 0`.
fn prepare(cigar: &Cigar, k: usize, pos: &mut Vec<usize>, jumps: &mut Vec<usize>) -> (r: Schedule)
    requires
        k > 0,
        total_len(cigar@) <= usize::MAX,
    ensures
        evaluation(cigar@, k as nat) == Ok::<_, OrderError>((r, as_ints(final(pos)@), as_ints(final(jumps)@))),
{
    collect_match_positions_into(cigar, pos);
    proof {
        lemma_match_positions_shape(cigar@);
        lemma_match_count_bound(cigar@);
        lemma_ints_increasing(pos@);
    }
    let m = pos.len();
    if m < k {
        jumps.clear();
        assert(as_ints(jumps@) =~= seq![]);
        Schedule::Zero
    } else if k == 1 {
        jumps.clear();
        assert(as_ints(jumps@) =~= seq![]);
        Schedule::Linear { matches: m }
    } else {
        gap_exponents_into(pos, jumps);
        Schedule::Recurrence { levels: k }
    }
}

/// Prepares an evaluation of order `k` on `cigar`, with fresh buffers.
/// Fails exactly when `k` is zero, before any work is done.
pub fn compute(cigar: &Cigar, k: usize) -> (r: Result<Plan, OrderError>)
    requires
        total_len(cigar@) <= usize::MAX,
    ensures
        r is Err <==> k == 0,
        match r {
            Ok(p) => evaluation(cigar@, k as nat) == Ok::<_, OrderError>(p@),
            Err(e) => evaluation(cigar@, k as nat) == Err::<(Schedule, Seq<int>, Seq<int>), _>(e),
        },
{
    if k == 0 {
        return Err(OrderError::ZeroOrder);
    }
    let mut positions: Vec<usize> = Vec::new();
    let mut jumps: Vec<usize> = Vec::new();
    let schedule = prepare(cigar, k, &mut positions, &mut jumps);
    Ok(Plan { schedule, positions, jumps })
}

/// An evaluator of fixed order that keeps its position and gap buffers
/// across evaluations, so that scoring many scripts reuses their storage.
#[derive(Debug)]
pub struct Lodhi {
    k: usize,
    match_pos: Vec<usize>,
    jumps: Vec<usize>,
}

impl Lodhi {
    pub closed spec fn order(&self) -> nat {
        self.k as nat
    }

    /// The match positions written by the last successful evaluation.
    pub closed spec fn buffered_positions(&self) -> Seq<int> {
        as_ints(self.match_pos@)
    }

    /// The gap exponents written by the last successful evaluation.
    pub closed spec fn buffered_jumps(&self) -> Seq<int> {
        as_ints(self.jumps@)
    }

    /// A new evaluator of order `k`, with empty buffers.
    pub fn new(k: usize) -> (r: Self)
        ensures
            r.order() == k,
            r.buffered_positions().len() == 0,
            r.buffered_jumps().len() == 0,
    {
        let r = Lodhi { k, match_pos: Vec::new(), jumps: Vec::new() };
        assert(as_ints(r.match_pos@) =~= seq![]);
        assert(as_ints(r.jumps@) =~= seq![]);
        r
    }

    pub fn k(&self) -> (r: usize)
        ensures
            r == self.order(),
    {
        self.k
    }

    pub fn positions(&self) -> (r: &Vec<usize>)
        ensures
            as_ints(r@) == self.buffered_positions(),
    {
        &self.match_pos
    }

    pub fn jumps(&self) -> (r: &Vec<usize>)
        ensures
            as_ints(r@) == self.buffered_jumps(),
    {
        &self.jumps
    }

    /// Prepares an evaluation of `cigar` in this evaluator's buffers. What
    /// the buffers held before has no bearing on the outcome, which is the
    /// stateless one. On a zero order nothing is changed.
    pub fn compute(&mut self, cigar: &Cigar) -> (r: Result<Schedule, OrderError>)
        requires
            total_len(cigar@) <= usize::MAX,
        ensures
            final(self).order() == old(self).order(),
            r is Err <==> old(self).order() == 0,
            match r {
                Ok(s) => evaluation(cigar@, old(self).order()) == Ok::<_, OrderError>(
                    (s, final(self).buffered_positions(), final(self).buffered_jumps()),
                ),
                Err(e) => evaluation(cigar@, old(self).order()) == Err::<(Schedule, Seq<int>, Seq<int>), _>(e)
                    && *final(self) == *old(self),
            },
    {
        if self.k == 0 {
            return Err(OrderError::ZeroOrder);
        }
        let schedule = prepare(cigar, self.k, &mut self.match_pos, &mut self.jumps);
        Ok(schedule)
    }
}

} // verus!
