use vstd::prelude::*;

use crate::error::TipError;

verus! {

/// What opening one escrow wallet gave: its mature balance, or a failure to open it.
#[derive(Debug, Clone, Copy, PartialEq, Eq, Structural)]
pub enum EscrowProbe {
    Opened(u64),
    Failed,
}

/// The balance that a probe contributes: an escrow that failed to open counts as empty.
pub open spec fn probe_balance(p: EscrowProbe) -> nat {
    match p {
        EscrowProbe::Opened(b) => b as nat,
        EscrowProbe::Failed => 0,
    }
}

/// The sum of the balances of `probes`.
pub open spec fn total_balance(probes: Seq<EscrowProbe>) -> nat
    decreases probes.len(),
{
    if probes.len() == 0 {
        0
    } else {
        total_balance(probes.drop_last()) + probe_balance(probes.last())
    }
}

/// The positions of the escrows with a nonzero balance, in order.
pub open spec fn sweep_indices(probes: Seq<EscrowProbe>) -> Seq<usize>
    decreases probes.len(),
{
    if probes.len() == 0 {
        Seq::empty()
    } else if probe_balance(probes.last()) > 0 {
        sweep_indices(probes.drop_last()).push((probes.len() - 1) as usize)
    } else {
        sweep_indices(probes.drop_last())
    }
}

/// What a claim does once every escrow of the claimant has been probed.
#[derive(Debug, Clone, PartialEq, Eq)]
pub enum ClaimPlan {
    /// The escrows hold nothing: no transfer is made.
    NothingToClaim,
    /// Sweep each escrow at these positions into the claimant's wallet.
    Sweep(Vec<usize>),
}

proof fn lemma_total_bound(probes: Seq<EscrowProbe>)
    ensures
        total_balance(probes) <= probes.len() * (u64::MAX as nat),
    decreases probes.len(),
{
    if probes.len() > 0 {
        lemma_total_bound(probes.drop_last());
        assert(probe_balance(probes.last()) <= u64::MAX);
        assert((probes.len() - 1) * (u64::MAX as nat) + u64::MAX == probes.len() * (u64::MAX as nat))
            by (nonlinear_arith);
    }
}

proof fn lemma_total_zero(probes: Seq<EscrowProbe>)
    ensures
        total_balance(probes) == 0 <==> forall|i: int|
            0 <= i < probes.len() ==> probe_balance(#[trigger] probes[i]) == 0,
        total_balance(probes) == 0 <==> sweep_indices(probes).len() == 0,
    decreases probes.len(),
{
    if probes.len() > 0 {
        let prefix = probes.drop_last();
        lemma_total_zero(prefix);
        assert(probes.last() == probes[probes.len() - 1]);
        if total_balance(probes) == 0 {
            assert forall|i: int| 0 <= i < probes.len() implies probe_balance(#[trigger] probes[i])
                == 0 by {
                if i < prefix.len() {
                    assert(prefix[i] == probes[i]);
                }
            }
        }
        if forall|i: int| 0 <= i < probes.len() ==> probe_balance(#[trigger] probes[i]) == 0 {
            assert forall|i: int| 0 <= i < prefix.len() implies probe_balance(#[trigger] prefix[i])
                == 0 by {
                assert(prefix[i] == probes[i]);
            }
        }
    }
}

proof fn lemma_sweep_members(probes: Seq<EscrowProbe>)
    requires
        probes.len() <= usize::MAX,
    ensures
        forall|k: int|
            0 <= k < sweep_indices(probes).len() ==> sweep_indices(probes)[k] < probes.len(),
        forall|j: int|
            0 <= j < probes.len() ==> (sweep_indices(probes).contains(j as usize) <==> probe_balance(
                #[trigger] probes[j],
            ) > 0),
    decreases probes.len(),
{
    if probes.len() > 0 {
        let prefix = probes.drop_last();
        lemma_sweep_members(prefix);
        let last = probes.len() - 1;
        assert(probes.last() == probes[last]);
        let sp = sweep_indices(prefix);
        assert forall|k: int| 0 <= k < sweep_indices(probes).len() implies sweep_indices(probes)[k]
            < probes.len() by {
            if k < sp.len() {
                assert(sweep_indices(probes)[k] == sp[k]);
            }
        }
        assert forall|j: int| 0 <= j < probes.len() implies (sweep_indices(probes).contains(
            j as usize,
        ) <==> probe_balance(#[trigger] probes[j]) > 0) by {
            if j < last {
                assert(prefix[j] == probes[j]);
                if probe_balance(probes.last()) > 0 {
                    if sweep_indices(probes).contains(j as usize) {
                        let k = choose|k: int|
                            0 <= k < sweep_indices(probes).len() && sweep_indices(probes)[k]
                                == j as usize;
                        if k < sp.len() {
                            assert(sp[k] == j as usize);
                        }
                    }
                    if sp.contains(j as usize) {
                        let k = choose|k: int| 0 <= k < sp.len() && sp[k] == j as usize;
                        assert(sweep_indices(probes)[k] == j as usize);
                    }
                }
            } else {
                if probe_balance(probes.last()) > 0 {
                    assert(sweep_indices(probes)[sp.len() as int] == j as usize);
                } else {
                    if sp.contains(j as usize) {
                        let k = choose|k: int| 0 <= k < sp.len() && sp[k] == j as usize;
                        assert(sp[k] < prefix.len());
                    }
                }
            }
        }
    }
}

/// An escrow that fails to open only drops out of the sweep itself: every other
/// escrow is swept exactly when it was swept before.
pub proof fn lemma_failed_probe_isolated(probes: Seq<EscrowProbe>, failed: int)
    requires
        0 <= failed < probes.len() <= usize::MAX,
    ensures
        !sweep_indices(probes.update(failed, EscrowProbe::Failed)).contains(failed as usize),
        forall|j: int|
            0 <= j < probes.len() && j != failed ==> (sweep_indices(
                probes.update(failed, EscrowProbe::Failed),
            ).contains(j as usize) <==> #[trigger] sweep_indices(probes).contains(j as usize)),
{
    let q = probes.update(failed, EscrowProbe::Failed);
    lemma_sweep_members(probes);
    lemma_sweep_members(q);
    assert(q[failed] == EscrowProbe::Failed);
    assert forall|j: int| 0 <= j < probes.len() && j != failed implies (sweep_indices(q).contains(
        j as usize,
    ) <==> #[trigger] sweep_indices(probes).contains(j as usize)) by {
        assert(q[j] == probes[j]);
    }
}

/// The total balance held by the probed escrows; those that failed to open count as zero.
pub fn claimable_total(probes: &Vec<EscrowProbe>) -> (r: u128)
    ensures
        r == total_balance(probes@),
{
    let mut total: u128 = 0;
    let mut i: usize = 0;
    while i < probes.len()
        invariant
            i <= probes@.len(),
            total == total_balance(probes@.take(i as int)),
        decreases probes@.len() - i,
    {
        proof {
            assert(probes@.take(i + 1).drop_last() =~= probes@.take(i as int));
            lemma_total_bound(probes@.take(i + 1));
            assert((i + 1) * (u64::MAX as nat) <= usize::MAX as nat * (u64::MAX as nat))
                by (nonlinear_arith)
                requires
                    i + 1 <= usize::MAX,
            ;
            assert(usize::MAX as nat * (u64::MAX as nat) < u128::MAX) by (nonlinear_arith)
                requires
                    usize::MAX <= u64::MAX,
            ;
        }
        match probes[i] {
            EscrowProbe::Opened(b) => {
                total = total + b as u128;
            },
            EscrowProbe::Failed => {},
        }
        i = i + 1;
    }
    assert(probes@.take(i as int) =~= probes@);
    total
}

/// Decides what a claim does: nothing when the escrows hold nothing in total,
/// otherwise a sweep of exactly the escrows whose balance is nonzero. A failed
/// probe only leaves out its own escrow.
pub fn plan_claim(probes: &Vec<EscrowProbe>) -> (r: ClaimPlan)
    ensures
        (r == ClaimPlan::NothingToClaim) <==> total_balance(probes@) == 0,
        (forall|i: int| 0 <= i < probes@.len() ==> probe_balance(#[trigger] probes@[i]) == 0) ==> r
            == ClaimPlan::NothingToClaim,
        match r {
            ClaimPlan::NothingToClaim => true,
            ClaimPlan::Sweep(indices) => indices@ == sweep_indices(probes@) && indices@.len() > 0,
        },
        forall|i: int|
            0 <= i < probes@.len() ==> (sweep_indices(probes@).contains(i as usize)
                <==> probe_balance(#[trigger] probes@[i]) > 0),
{
    proof {
        lemma_total_zero(probes@);
    }
    let mut indices: Vec<usize> = Vec::new();
    let mut i: usize = 0;
    while i < probes.len()
        invariant
            i <= probes@.len(),
            indices@ == sweep_indices(probes@.take(i as int)),
        decreases probes@.len() - i,
    {
        assert(probes@.take(i + 1).drop_last() =~= probes@.take(i as int));
        match probes[i] {
            EscrowProbe::Opened(b) => {
                if b > 0 {
                    indices.push(i);
                }
            },
            EscrowProbe::Failed => {},
        }
        i = i + 1;
    }
    assert(probes@.take(i as int) =~= probes@);
    proof {
        lemma_sweep_members(probes@);
    }
    if indices.len() == 0 {
        ClaimPlan::NothingToClaim
    } else {
        ClaimPlan::Sweep(indices)
    }
}

/// The amount to send out of one escrow, from the fee estimate for sending its whole
/// balance: the estimate's final amount (the balance less the fee), or
/// `FeeEstimationUnavailable` when the estimate gave none.
pub fn sweep_payout(final_transaction_amount: Option<u64>) -> (r: Result<u64, TipError>)
    ensures
        match final_transaction_amount {
            Some(a) => r == Ok::<u64, TipError>(a),
            None => r == Err::<u64, TipError>(TipError::FeeEstimationUnavailable),
        },
{
    match final_transaction_amount {
        Some(a) => Ok(a),
        None => Err(TipError::FeeEstimationUnavailable),
    }
}

/// What one sweep came to, from its payout and whether the transfer was submitted.
pub fn sweep_result(payout: Result<u64, TipError>, submitted: bool) -> (r: Result<u64, TipError>)
    ensures
        match payout {
            Ok(a) => r == if submitted {
                Ok::<u64, TipError>(a)
            } else {
                Err::<u64, TipError>(TipError::TransferFailed)
            },
            Err(e) => r == Err::<u64, TipError>(e),
        },
{
    match payout {
        Ok(a) => if submitted {
            Ok(a)
        } else {
            Err(TipError::TransferFailed)
        },
        Err(e) => Err(e),
    }
}

/// The sum of the amounts of the successful outcomes.
pub open spec fn claimed_total(outcomes: Seq<Result<u64, TipError>>) -> nat
    decreases outcomes.len(),
{
    if outcomes.len() == 0 {
        0
    } else {
        claimed_total(outcomes.drop_last()) + match outcomes.last() {
            Ok(a) => a as nat,
            Err(_) => 0nat,
        }
    }
}

/// How many of the outcomes succeeded.
pub open spec fn success_count(outcomes: Seq<Result<u64, TipError>>) -> nat
    decreases outcomes.len(),
{
    if outcomes.len() == 0 {
        0
    } else {
        success_count(outcomes.drop_last()) + if outcomes.last() is Ok {
            1nat
        } else {
            0nat
        }
    }
}

/// The outcome of a claim over all the escrows that were swept.
#[derive(Debug, Clone, Copy, PartialEq, Eq, Structural)]
pub struct ClaimReport {
    /// What the successful sweeps sent, in total.
    pub claimed: u128,
    pub succeeded: usize,
    pub failed: usize,
}

proof fn lemma_outcome_bounds(outcomes: Seq<Result<u64, TipError>>)
    ensures
        claimed_total(outcomes) <= outcomes.len() * (u64::MAX as nat),
        success_count(outcomes) <= outcomes.len(),
    decreases outcomes.len(),
{
    if outcomes.len() > 0 {
        lemma_outcome_bounds(outcomes.drop_last());
        assert((outcomes.len() - 1) * (u64::MAX as nat) + u64::MAX == outcomes.len() * (
        u64::MAX as nat)) by (nonlinear_arith);
    }
}

proof fn lemma_counts_update(
    outcomes: Seq<Result<u64, TipError>>,
    i: int,
    e: TipError,
)
    requires
        0 <= i < outcomes.len(),
    ensures
        success_count(outcomes.update(i, Err(e))) + (if outcomes[i] is Ok {
            1nat
        } else {
            0nat
        }) == success_count(outcomes),
        claimed_total(outcomes.update(i, Err(e))) + match outcomes[i] {
            Ok(a) => a as nat,
            Err(_) => 0nat,
        } == claimed_total(outcomes),
    decreases outcomes.len(),
{
    let u = outcomes.update(i, Err(e));
    let last = outcomes.len() - 1;
    if i == last {
        assert(u.drop_last() =~= outcomes.drop_last());
    } else {
        lemma_counts_update(outcomes.drop_last(), i, e);
        assert(u.drop_last() =~= outcomes.drop_last().update(i, Err(e)));
        assert(u.last() == outcomes.last());
    }
}

/// A sweep that fails instead of succeeding takes away its own success and amount
/// from the report, and nothing else.
pub proof fn lemma_failed_sweep_isolated(outcomes: Seq<Result<u64, TipError>>, i: int, e: TipError)
    requires
        0 <= i < outcomes.len(),
        outcomes[i] is Ok,
    ensures
        success_count(outcomes.update(i, Err(e))) + 1 == success_count(outcomes),
        claimed_total(outcomes.update(i, Err(e))) + (outcomes[i]->Ok_0 as nat) == claimed_total(
            outcomes,
        ),
{
    lemma_counts_update(outcomes, i, e);
}

/// Gathers the outcomes of the sweeps, one per escrow. Each counts on its own:
/// a failed sweep takes nothing away from the others.
pub fn summarize_claim(outcomes: &Vec<Result<u64, TipError>>) -> (r: ClaimReport)
    ensures
        r.claimed == claimed_total(outcomes@),
        r.succeeded == success_count(outcomes@),
        r.succeeded + r.failed == outcomes@.len(),
{
    let mut claimed: u128 = 0;
    let mut succeeded: usize = 0;
    let mut failed: usize = 0;
    let mut i: usize = 0;
    while i < outcomes.len()
        invariant
            i <= outcomes@.len(),
            claimed == claimed_total(outcomes@.take(i as int)),
            succeeded == success_count(outcomes@.take(i as int)),
            succeeded + failed == i,
        decreases outcomes@.len() - i,
    {
        proof {
            assert(outcomes@.take(i + 1).drop_last() =~= outcomes@.take(i as int));
            lemma_outcome_bounds(outcomes@.take(i + 1));
            assert((i + 1) * (u64::MAX as nat) <= usize::MAX as nat * (u64::MAX as nat))
                by (nonlinear_arith)
                requires
                    i + 1 <= usize::MAX,
            ;
            assert(usize::MAX as nat * (u64::MAX as nat) < u128::MAX) by (nonlinear_arith)
                requires
                    usize::MAX <= u64::MAX,
            ;
        }
        match outcomes[i] {
            Ok(a) => {
                claimed = claimed + a as u128;
                succeeded = succeeded + 1;
            },
            Err(_) => {
                failed = failed + 1;
            },
        }
        i = i + 1;
    }
    assert(outcomes@.take(i as int) =~= outcomes@);
    ClaimReport { claimed, succeeded, failed }
}

} // verus!
