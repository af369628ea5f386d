use tipbot::{
    claimable_total, plan_claim, summarize_claim, sweep_payout, sweep_result, ClaimPlan,
    ClaimReport, EscrowProbe, TipError,
};

#[test]
fn claim_with_only_empty_escrows_is_a_no_op() {
    let probes = vec![EscrowProbe::Opened(0), EscrowProbe::Opened(0), EscrowProbe::Failed];
    assert_eq!(claimable_total(&probes), 0);
    assert_eq!(plan_claim(&probes), ClaimPlan::NothingToClaim);
}

#[test]
fn claim_with_no_escrows_is_a_no_op() {
    let probes: Vec<EscrowProbe> = Vec::new();
    assert_eq!(claimable_total(&probes), 0);
    assert_eq!(plan_claim(&probes), ClaimPlan::NothingToClaim);
}

#[test]
fn claim_sweeps_only_nonzero_escrows() {
    // A: 100, B: 0, C: 50
    let probes = vec![EscrowProbe::Opened(100), EscrowProbe::Opened(0), EscrowProbe::Opened(50)];
    assert_eq!(claimable_total(&probes), 150);
    assert_eq!(plan_claim(&probes), ClaimPlan::Sweep(vec![0, 2]));
}

#[test]
fn claim_survives_a_failed_open() {
    // B fails to open; A and C are still swept and both succeed.
    let probes = vec![EscrowProbe::Opened(100), EscrowProbe::Failed, EscrowProbe::Opened(50)];
    assert_eq!(claimable_total(&probes), 150);
    let plan = plan_claim(&probes);
    assert_eq!(plan, ClaimPlan::Sweep(vec![0, 2]));
    let outcomes = vec![
        sweep_result(sweep_payout(Some(99)), true),
        sweep_result(sweep_payout(Some(49)), true),
    ];
    assert_eq!(outcomes, vec![Ok(99), Ok(49)]);
    let report = summarize_claim(&outcomes);
    assert_eq!(report, ClaimReport { claimed: 148, succeeded: 2, failed: 0 });
}

#[test]
fn claim_total_does_not_overflow() {
    let probes = vec![EscrowProbe::Opened(u64::MAX), EscrowProbe::Opened(u64::MAX)];
    assert_eq!(claimable_total(&probes), 2 * (u64::MAX as u128));
}

#[test]
fn payout_without_estimate_fails() {
    assert_eq!(sweep_payout(None), Err(TipError::FeeEstimationUnavailable));
    assert_eq!(sweep_payout(Some(7)), Ok(7));
}

#[test]
fn failed_submission_is_a_transfer_failure() {
    assert_eq!(sweep_result(Ok(10), false), Err(TipError::TransferFailed));
    assert_eq!(
        sweep_result(Err(TipError::FeeEstimationUnavailable), true),
        Err(TipError::FeeEstimationUnavailable)
    );
}

#[test]
fn one_failed_sweep_does_not_hide_the_others() {
    let outcomes = vec![Ok(30), Err(TipError::FeeEstimationUnavailable), Ok(12), Err(TipError::TransferFailed)];
    let report = summarize_claim(&outcomes);
    assert_eq!(report, ClaimReport { claimed: 42, succeeded: 2, failed: 2 });
}

#[test]
fn failed_probe_only_removes_its_own_escrow() {
    let healthy = vec![EscrowProbe::Opened(100), EscrowProbe::Opened(50), EscrowProbe::Opened(30)];
    let broken = vec![EscrowProbe::Opened(100), EscrowProbe::Failed, EscrowProbe::Opened(30)];
    assert_eq!(plan_claim(&healthy), ClaimPlan::Sweep(vec![0, 1, 2]));
    assert_eq!(plan_claim(&broken), ClaimPlan::Sweep(vec![0, 2]));
    assert_eq!(claimable_total(&broken), 130);
}

#[test]
fn failed_sweep_only_removes_its_own_amount() {
    let all_ok = vec![Ok(10), Ok(20), Ok(30)];
    let one_failed = vec![Ok(10), Err(TipError::TransferFailed), Ok(30)];
    assert_eq!(summarize_claim(&all_ok), ClaimReport { claimed: 60, succeeded: 3, failed: 0 });
    assert_eq!(summarize_claim(&one_failed), ClaimReport { claimed: 40, succeeded: 2, failed: 1 });
}
