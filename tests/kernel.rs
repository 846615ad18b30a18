use cigar_lodhi::{collect_match_positions, compute, gap_exponents};
use cigar_lodhi::{Cigar, CigarElem, CigarOp, Lodhi, OrderError, Plan, Schedule};

fn script(runs: &[(CigarOp, u32)]) -> Cigar {
    Cigar::from_runs(runs.iter().map(|&(op, cnt)| CigarElem::new(op, cnt)).collect())
}

// 2=1D3=
fn paper_script() -> Cigar {
    script(&[(CigarOp::Match, 2), (CigarOp::Del, 1), (CigarOp::Match, 3)])
}

// Runs the decayed recurrence on a prepared plan, as a consumer of the plan does.
fn score(plan: &Plan, lambda: f64) -> f64 {
    match plan.schedule {
        Schedule::Zero => 0.0,
        Schedule::Linear { matches } => matches as f64 * lambda,
        Schedule::Recurrence { levels } => {
            let m = plan.positions.len();
            let mut prev = vec![lambda; m];
            let mut cur = vec![0.0; m];
            let start = lambda.powi(plan.positions[0] as i32);
            for _ in 2..=levels {
                let mut running = 0.0;
                let mut lam = start;
                let mut lam_inv = 1.0 / lam;
                for i in 0..m {
                    cur[i] = lam * running;
                    running += prev[i] * lam_inv;
                    if i + 1 < m {
                        let jump = lambda.powi(plan.jumps[i] as i32);
                        lam *= jump;
                        lam_inv /= jump;
                    }
                }
                prev.copy_from_slice(&cur);
            }
            prev.iter().sum()
        }
    }
}

#[test]
fn test_compute() {
    let plan = compute(&paper_script(), 3).unwrap();
    assert_eq!(plan.schedule, Schedule::Recurrence { levels: 3 });
    assert_eq!(plan.positions, vec![0, 1, 3, 4, 5]);
    assert_eq!(plan.jumps, vec![1, 2, 1, 1]);
    assert_eq!(score(&plan, 0.5), 0.421875);
}

#[test]
fn test_lodhi_compute_reuse() {
    let mut lodhi = Lodhi::new(3);
    let s = lodhi.compute(&paper_script()).unwrap();
    assert_eq!(s, Schedule::Recurrence { levels: 3 });
    assert_eq!(lodhi.positions(), &vec![0, 1, 3, 4, 5]);

    // 4=1D1=: a different script in the same buffers
    let cigar2 = script(&[(CigarOp::Match, 4), (CigarOp::Del, 1), (CigarOp::Match, 1)]);
    let s2 = lodhi.compute(&cigar2).unwrap();
    let fresh = compute(&cigar2, 3).unwrap();
    assert_eq!(s2, fresh.schedule);
    assert_eq!(lodhi.positions(), &fresh.positions);
    assert_eq!(lodhi.jumps(), &fresh.jumps);
}

#[test]
fn compute_paper_cigar() {
    let mut lodhi = Lodhi::new(3);
    // 2X3=
    let s1 = lodhi.compute(&script(&[(CigarOp::Sub, 2), (CigarOp::Match, 3)])).unwrap();
    assert_eq!(s1, Schedule::Recurrence { levels: 3 });
    assert_eq!(lodhi.positions(), &vec![2, 3, 4]);
    assert_eq!(lodhi.jumps(), &vec![1, 1]);
    // =X=X=
    let s2 = lodhi
        .compute(&script(&[
            (CigarOp::Match, 1),
            (CigarOp::Sub, 1),
            (CigarOp::Match, 1),
            (CigarOp::Sub, 1),
            (CigarOp::Match, 1),
        ]))
        .unwrap();
    assert_eq!(s2, Schedule::Recurrence { levels: 3 });
    assert_eq!(lodhi.positions(), &vec![0, 2, 4]);
    assert_eq!(lodhi.jumps(), &vec![2, 2]);
}

#[test]
fn positions_of_empty_script() {
    assert_eq!(collect_match_positions(&script(&[])), Vec::<usize>::new());
}

#[test]
fn positions_skip_every_other_op() {
    let c = script(&[
        (CigarOp::Ins, 2),
        (CigarOp::Match, 2),
        (CigarOp::Sub, 1),
        (CigarOp::Match, 0),
        (CigarOp::Del, 3),
        (CigarOp::Match, 1),
    ]);
    assert_eq!(collect_match_positions(&c), vec![2, 3, 8]);
}

#[test]
fn gaps_between_positions() {
    assert_eq!(gap_exponents(&vec![0, 1, 3, 4, 5]), vec![1, 2, 1, 1]);
    assert_eq!(gap_exponents(&vec![7]), Vec::<usize>::new());
    assert_eq!(gap_exponents(&Vec::new()), Vec::<usize>::new());
}

#[test]
fn order_above_match_count_is_zero() {
    let plan = compute(&paper_script(), 6).unwrap();
    assert_eq!(plan.schedule, Schedule::Zero);
    assert!(plan.jumps.is_empty());
    for lambda in [0.1, 0.5, 1.0, 2.0] {
        assert_eq!(score(&plan, lambda), 0.0);
    }
}

#[test]
fn fewer_matches_than_order_is_zero() {
    let c = script(&[(CigarOp::Match, 2), (CigarOp::Sub, 4)]);
    let plan = compute(&c, 3).unwrap();
    assert_eq!(plan.schedule, Schedule::Zero);
    assert_eq!(score(&plan, 0.5), 0.0);
    assert_eq!(score(&plan, 0.9), 0.0);
}

#[test]
fn order_one_is_linear() {
    let plan = compute(&paper_script(), 1).unwrap();
    assert_eq!(plan.schedule, Schedule::Linear { matches: 5 });
    assert!(plan.jumps.is_empty());
    assert_eq!(score(&plan, 0.3), 5.0 * 0.3);
}

#[test]
fn order_one_without_matches_is_zero() {
    let plan = compute(&script(&[(CigarOp::Del, 3)]), 1).unwrap();
    assert_eq!(plan.schedule, Schedule::Zero);
}

#[test]
fn zero_order_is_rejected() {
    assert_eq!(compute(&paper_script(), 0).unwrap_err(), OrderError::ZeroOrder);
    assert_eq!(compute(&script(&[]), 0).unwrap_err(), OrderError::ZeroOrder);
}

#[test]
fn zero_order_leaves_evaluator_untouched() {
    let mut lodhi = Lodhi::new(0);
    assert_eq!(lodhi.compute(&paper_script()), Err(OrderError::ZeroOrder));
    assert!(lodhi.positions().is_empty());
    assert!(lodhi.jumps().is_empty());
    assert_eq!(lodhi.k(), 0);
}

#[test]
fn evaluation_is_deterministic() {
    let a = compute(&paper_script(), 3).unwrap();
    let b = compute(&paper_script(), 3).unwrap();
    assert_eq!(a.schedule, b.schedule);
    assert_eq!(a.positions, b.positions);
    assert_eq!(a.jumps, b.jumps);
    assert_eq!(score(&a, 0.7).to_bits(), score(&b, 0.7).to_bits());
}

#[test]
fn reuse_after_larger_script_matches_stateless() {
    let big = script(&[(CigarOp::Match, 6), (CigarOp::Ins, 2), (CigarOp::Match, 4)]);
    let small = script(&[(CigarOp::Del, 1), (CigarOp::Match, 2), (CigarOp::Sub, 1), (CigarOp::Match, 1)]);
    let mut lodhi = Lodhi::new(2);
    lodhi.compute(&big).unwrap();
    let s = lodhi.compute(&small).unwrap();
    let fresh = compute(&small, 2).unwrap();
    assert_eq!(s, fresh.schedule);
    assert_eq!(lodhi.positions(), &vec![1, 2, 4]);
    assert_eq!(lodhi.positions(), &fresh.positions);
    assert_eq!(lodhi.jumps(), &vec![1, 2]);
    assert_eq!(lodhi.jumps(), &fresh.jumps);
}

#[test]
fn gaps_change_the_score() {
    let clustered = compute(&script(&[(CigarOp::Match, 3), (CigarOp::Sub, 4)]), 2).unwrap();
    let spread = compute(
        &script(&[
            (CigarOp::Match, 1),
            (CigarOp::Sub, 2),
            (CigarOp::Match, 1),
            (CigarOp::Sub, 2),
            (CigarOp::Match, 1),
        ]),
        2,
    )
    .unwrap();
    assert_eq!(clustered.jumps, vec![1, 1]);
    assert_eq!(spread.jumps, vec![3, 3]);
    assert!(score(&clustered, 0.5) > score(&spread, 0.5));
}

#[test]
fn larger_decay_gives_larger_score() {
    let plan = compute(&paper_script(), 2).unwrap();
    let low = score(&plan, 0.3);
    let mid = score(&plan, 0.6);
    let high = score(&plan, 0.9);
    assert!(low < mid && mid < high);
}
