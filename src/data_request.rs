//! A data request: the ordered rounds of its escalation game, the rules on
//! which outcome may be staked, finalization, and the payout of a claim.
use crate::error::OracleError;
use crate::math::{calc_product, product_div};
use crate::ledger::{
    lemma_sum_over_add, lemma_sum_over_agree, lemma_sum_over_floor, lemma_sum_over_le,
    lemma_sum_over_without, lemma_sum_over_zero, sum_over,
};
use crate::resolution_window::{
    lemma_accounts_stake_le, opt_view, user_stake_fn, ResolutionWindow,
    WindowStakeResult,
};
use crate::types::{
    AccountId, AnswerType, AnswerView, Balance, Duration, OracleConfig, Outcome, OutcomeView,
    Source, Timestamp,
};
use vstd::arithmetic::power2::{lemma2_to64, lemma2_to64_rest, lemma_pow2_adds, lemma_pow2_strictly_increases, lemma_pow2_unfold, pow2};
use vstd::prelude::*;

verus! {

/// Fee percentages are parts of this divisor.
pub const PERCENTAGE_DIVISOR: u16 = 10_000;

/// What a requestor submits to create a data request.
pub struct NewDataRequestArgs {
    pub sources: Vec<Source>,
    /// The answers allowed, if the request fixes them.
    pub outcomes: Option<Vec<String>>,
    /// Earliest time at which staking may begin; may lie in the past.
    pub settlement_time: Timestamp,
    /// Challenge period of the first round.
    pub challenge_period: Duration,
    /// Receives the final outcome.
    pub target_contract: AccountId,
}

pub struct DataRequest {
    pub id: u64,
    pub sources: Vec<Source>,
    pub settlement_time: Timestamp,
    pub outcomes: Option<Vec<String>>,
    /// The account that created the request.
    pub requestor: AccountId,
    pub finalized_outcome: Option<Outcome>,
    /// One window per round, in round order; only ever appended to.
    pub resolution_windows: Vec<ResolutionWindow>,
    /// The configuration at creation.
    pub config: OracleConfig,
    pub initial_challenge_period: Duration,
    pub final_arbitrator_triggered: bool,
    pub target_contract: AccountId,
    /// Total value locked behind the request, as fetched at creation.
    pub tvl: Balance,
}

/// Whether the answer list `outcomes` holds the text `s`.
pub open spec fn lists_answer(outcomes: Seq<String>, s: Seq<char>) -> bool {
    exists|i: int| 0 <= i < outcomes.len() && #[trigger] outcomes[i]@ == s
}

/// The fee on `tvl` at `percentage` parts of `PERCENTAGE_DIVISOR`, rounded down.
pub open spec fn fee_of(tvl: int, percentage: int) -> int {
    tvl * percentage / PERCENTAGE_DIVISOR as int
}

pub open spec fn max_of(a: int, b: int) -> int {
    if a > b {
        a
    } else {
        b
    }
}

pub open spec fn min_of(a: int, b: int) -> int {
    if a > b {
        b
    } else {
        a
    }
}

/// Sum of the bonds of the rounds in `1..n` that bonded `f`.
pub open spec fn correct_bonds(w: Seq<ResolutionWindow>, f: OutcomeView, n: int) -> int
    decreases n,
{
    if n <= 1 {
        0
    } else {
        correct_bonds(w, f, n - 1) + if w[n - 1].bonded() == Some(f) {
            w[n - 1].bond_size as int
        } else {
            0
        }
    }
}

/// Sum of the bonds of the rounds in `0..n` that bonded an outcome other than `f`.
pub open spec fn incorrect_bonds(w: Seq<ResolutionWindow>, f: OutcomeView, n: int) -> int
    decreases n,
{
    if n <= 0 {
        0
    } else {
        incorrect_bonds(w, f, n - 1) + if w[n - 1].bonded_outcome is Some && w[n - 1].bonded()
            != Some(f) {
            w[n - 1].bond_size as int
        } else {
            0
        }
    }
}

/// What account `a` staked on `f` in the rounds in `1..n` that bonded `f`.
pub open spec fn correct_user_stake(
    w: Seq<ResolutionWindow>,
    a: Seq<char>,
    f: OutcomeView,
    n: int,
) -> int
    decreases n,
{
    if n <= 1 {
        0
    } else {
        correct_user_stake(w, a, f, n - 1) + if w[n - 1].bonded() == Some(f) {
            w[n - 1].user_stake_on(a, f) as int
        } else {
            0
        }
    }
}

/// The share of `a` in the round-0 pool `pool`, where round 0 bonded `f`.
pub open spec fn round0_earnings(w: Seq<ResolutionWindow>, a: Seq<char>, f: OutcomeView, pool: int) -> int {
    if w.len() > 0 && w[0].bonded() == Some(f) {
        product_div(w[0].user_stake_on(a, f) as int, pool, w[0].bond_size as int)
    } else {
        0
    }
}

/// The payout of `a` on rounds `w` settled on `f`: the share in the round-0
/// pool, plus the share of the lost bonds in proportion to the stake on the
/// later correct rounds.
pub open spec fn payout_of(w: Seq<ResolutionWindow>, a: Seq<char>, f: OutcomeView, pool: int) -> int {
    let n = w.len() as int;
    round0_earnings(w, a, f, pool) + if correct_bonds(w, f, n) == 0 {
        0
    } else {
        product_div(correct_user_stake(w, a, f, n), incorrect_bonds(w, f, n), correct_bonds(w, f, n))
    }
}

/// Window `n` is window `o` after account `a` claimed on final outcome `f`.
#[verifier::opaque]
pub open spec fn window_claimed(n: ResolutionWindow, o: ResolutionWindow, a: Seq<char>, f: OutcomeView) -> bool {
    &&& n.wf()
    &&& n.same_round(&o)
    &&& n.bonded() == o.bonded()
    &&& n.outcome_to_stake == o.outcome_to_stake
    &&& o.bonded() == Some(f) ==> n.user_stake_on(a, f) == 0
    &&& forall|b: Seq<char>, x: OutcomeView|
        (b, x) != (a, f) ==> #[trigger] n.user_stake_on(b, x) == o.user_stake_on(b, x)
    &&& o.bonded() != Some(f) ==> n == o
}

proof fn lemma_product_div_le(a: int, b: int, d: int)
    requires
        0 <= a <= d,
        0 < d,
        0 <= b,
    ensures
        0 <= product_div(a, b, d) <= b,
{
    assert(a * b <= b * d) by (nonlinear_arith)
        requires 0 <= a <= d, 0 <= b;
    assert(0 <= a * b) by (nonlinear_arith)
        requires 0 <= a, 0 <= b;
    vstd::arithmetic::div_mod::lemma_div_is_ordered(a * b, b * d, d);
    vstd::arithmetic::div_mod::lemma_div_by_multiple(b, d);
    vstd::arithmetic::div_mod::lemma_div_pos_is_pos(a * b, d);
}

/// The fee on `tvl` at `percentage`, where it is at most a quarter of the
/// largest balance; `None` where it is larger.
pub fn fee_within_limit(tvl: Balance, percentage: u16) -> (r: Option<Balance>)
    ensures
        r is Some <==> fee_of(tvl as int, percentage as int) <= u128::MAX / 4,
        r is Some ==> r->0 == fee_of(tvl as int, percentage as int),
{
    let d: u128 = PERCENTAGE_DIVISOR as u128;
    let p: u128 = percentage as u128;
    let limit: u128 = u128::MAX / 4;
    let q = tvl / d;
    let rem = tvl % d;
    proof {
        vstd::arithmetic::div_mod::lemma_fundamental_div_mod(tvl as int, d as int);
        assert(tvl as int * p as int == rem as int * p as int + (q as int * p as int) * d as int)
            by (nonlinear_arith)
            requires tvl as int == d as int * q as int + rem as int;
        vstd::arithmetic::div_mod::lemma_hoist_over_denominator(rem as int * p as int, q as int * p as int, d as nat);
        assert(0 <= rem as int * p as int) by (nonlinear_arith)
            requires 0 <= rem, 0 <= p;
        vstd::arithmetic::div_mod::lemma_div_pos_is_pos(rem as int * p as int, d as int);
        assert(fee_of(tvl as int, percentage as int) == q as int * p as int + rem as int * p as int / d as int);
        assert(rem as int * p as int <= 9999 * 65535) by (nonlinear_arith)
            requires 0 <= rem < 10000, 0 <= p <= 65535;
        vstd::arithmetic::div_mod::lemma_div_is_ordered(rem as int * p as int, 9999int * 65535int, d as int);
        assert(0 <= q as int * p as int) by (nonlinear_arith)
            requires 0 <= q, 0 <= p;
    }
    if p > 0 && q > limit / p {
        proof {
            vstd::arithmetic::div_mod::lemma_fundamental_div_mod(limit as int, p as int);
            assert(q as int * p as int > limit as int) by (nonlinear_arith)
                requires
                    q as int >= limit as int / p as int + 1,
                    limit as int == p as int * (limit as int / p as int) + limit as int % p as int,
                    (limit as int % p as int) < (p as int),
                    p > 0;
        }
        return None;
    }
    proof {
        if p > 0 {
            vstd::arithmetic::div_mod::lemma_fundamental_div_mod(limit as int, p as int);
            assert(q as int * p as int <= limit as int) by (nonlinear_arith)
                requires
                    q as int <= limit as int / p as int,
                    limit as int == p as int * (limit as int / p as int) + limit as int % p as int,
                    limit as int % p as int >= 0,
                    p > 0;
        } else {
            assert(q as int * p as int == 0);
        }
    }
    let fee = q * p + rem * p / d;
    if fee <= limit {
        Some(fee)
    } else {
        None
    }
}

/// A claim keeps a request consistent.
proof fn lemma_claimed_wf(d: &DataRequest, before: &DataRequest, a: Seq<char>)
    requires
        before.wf(),
        before.finalized_outcome is Some,
        d.claimed_from(before, a),
    ensures
        d.wf(),
{
    reveal(window_claimed);
    let w = d.resolution_windows@;
    let ow = before.resolution_windows@;
    assert forall|i: int| 0 <= i < w.len() implies {
        &&& (#[trigger] w[i]).wf()
        &&& w[i].round == i
        &&& w[i].dr_id == d.id
        &&& w[i].bond_size >= pow2(i as nat)
        &&& w[i].bond_size <= u128::MAX / 4
    } by {
        assert(window_claimed(w[i], ow[i], a, before.finalized_outcome->0@));
    }
    assert forall|i: int| 0 < i < w.len() implies #[trigger] w[i].bond_size == 2 * w[i - 1].bond_size by {
        assert(window_claimed(w[i], ow[i], a, before.finalized_outcome->0@));
        assert(window_claimed(w[i - 1], ow[i - 1], a, before.finalized_outcome->0@));
    }
    assert forall|i: int| 0 <= i < w.len() - 1 implies (#[trigger] w[i]).bonded_outcome is Some
        && w[i].bond_size < d.config.final_arbitrator_invoke_amount by {
        assert(window_claimed(w[i], ow[i], a, before.finalized_outcome->0@));
        assert(ow[i].bonded_outcome is Some);
    }
    if w.len() > 0 {
        assert(window_claimed(w[0], ow[0], a, before.finalized_outcome->0@));
        assert(window_claimed(w[w.len() - 1], ow[w.len() - 1], a, before.finalized_outcome->0@));
    }
}

impl DataRequest {
    pub open spec fn windows(&self) -> Seq<ResolutionWindow> {
        self.resolution_windows@
    }

    pub open spec fn fee(&self) -> int {
        fee_of(self.tvl as int, self.config.resolution_fee_percentage as int)
    }

    /// Bond size of round 0.
    pub open spec fn resolution_bond(&self) -> int {
        max_of(self.fee(), self.config.validity_bond as int)
    }

    /// Sizes for which every bond, total and payout of the request fits in
    /// 128 bits, and a bond that is not zero (with a zero bond every stake
    /// would fill its round at once).
    pub open spec fn within_limits(&self) -> bool {
        &&& self.fee() + self.config.validity_bond <= u128::MAX / 4
        &&& self.config.final_arbitrator_invoke_amount <= u128::MAX / 8
        &&& self.resolution_bond() > 0
    }

    /// The state of the escalation game is consistent: rounds are numbered in
    /// order, round 0 bonds at the resolution bond and each later round at
    /// twice the one before, every round but the last has bonded below the
    /// arbitration threshold, and the last has bonded exactly when the
    /// final arbitrator was invoked.
    pub open spec fn wf(&self) -> bool {
        let w = self.resolution_windows@;
        &&& self.within_limits()
        &&& forall|i: int|
            0 <= i < w.len() ==> {
                &&& (#[trigger] w[i]).wf()
                &&& w[i].round == i
                &&& w[i].dr_id == self.id
                &&& w[i].bond_size >= pow2(i as nat)
                &&& w[i].bond_size <= u128::MAX / 4
            }
        &&& w.len() > 0 ==> w[0].bond_size == self.resolution_bond()
        &&& forall|i: int| 0 < i < w.len() ==> #[trigger] w[i].bond_size == 2 * w[i - 1].bond_size
        &&& forall|i: int|
            0 <= i < w.len() - 1 ==> (#[trigger] w[i]).bonded_outcome is Some && w[i].bond_size
                < self.config.final_arbitrator_invoke_amount
        &&& self.final_arbitrator_triggered <==> (w.len() > 0 && w.last().bonded_outcome is Some)
        &&& self.final_arbitrator_triggered ==> w.last().bond_size
            >= self.config.final_arbitrator_invoke_amount
    }

    /// The fields that no stake, unstake or claim changes.
    pub open spec fn same_request(&self, other: &DataRequest) -> bool {
        &&& self.id == other.id
        &&& self.sources == other.sources
        &&& self.settlement_time == other.settlement_time
        &&& self.outcomes == other.outcomes
        &&& self.requestor == other.requestor
        &&& self.config == other.config
        &&& self.initial_challenge_period == other.initial_challenge_period
        &&& self.target_contract == other.target_contract
        &&& self.tvl == other.tvl
    }

    /// Whether `o` may be staked on or decided: any outcome where the request
    /// fixes no answers, else `Invalid` or one of the fixed answers (which are
    /// texts, so no number).
    pub open spec fn outcome_allowed(&self, o: OutcomeView) -> bool {
        match self.outcomes {
            None => true,
            Some(v) => match o {
                OutcomeView::Invalid => true,
                OutcomeView::Answer(AnswerView::String(s)) => lists_answer(v@, s),
                OutcomeView::Answer(AnswerView::Number(_)) => false,
            },
        }
    }

    /// Whether `o` repeats the outcome bonded in the round before the open one.
    pub open spec fn repeats_bonded(&self, o: OutcomeView) -> bool {
        let w = self.resolution_windows@;
        w.len() > 1 && w[w.len() - 2].bonded() == Some(o)
    }

    /// The outcome that automatic finalization settles on.
    pub open spec fn final_outcome_spec(&self) -> Option<OutcomeView> {
        let w = self.resolution_windows@;
        w[w.len() - 2].bonded()
    }

    /// Whether the automatic path may finalize at time `now`.
    pub open spec fn can_finalize(&self, now: Timestamp) -> bool {
        let w = self.resolution_windows@;
        &&& !self.final_arbitrator_triggered
        &&& w.len() >= 2
        &&& self.finalized_outcome is None
        &&& now >= w.last().end_time
    }

    /// Creates the request from validated arguments; no round is open yet.
    pub fn new(
        sender: AccountId,
        id: u64,
        config: OracleConfig,
        request_data: NewDataRequestArgs,
        tvl: Balance,
    ) -> (r: Self)
        requires
            fee_of(tvl as int, config.resolution_fee_percentage as int) + config.validity_bond
                <= u128::MAX / 4,
            config.final_arbitrator_invoke_amount <= u128::MAX / 8,
            max_of(
                fee_of(tvl as int, config.resolution_fee_percentage as int),
                config.validity_bond as int,
            ) > 0,
        ensures
            r.wf(),
            r.id == id,
            r.requestor == sender,
            r.config == config,
            r.tvl == tvl,
            r.sources == request_data.sources,
            r.outcomes == request_data.outcomes,
            r.settlement_time == request_data.settlement_time,
            r.initial_challenge_period == request_data.challenge_period,
            r.target_contract == request_data.target_contract,
            r.resolution_windows@.len() == 0,
            r.finalized_outcome is None,
            !r.final_arbitrator_triggered,
    {
        DataRequest {
            id,
            sources: request_data.sources,
            settlement_time: request_data.settlement_time,
            outcomes: request_data.outcomes,
            requestor: sender,
            finalized_outcome: None,
            resolution_windows: Vec::new(),
            config,
            initial_challenge_period: request_data.challenge_period,
            final_arbitrator_triggered: false,
            target_contract: request_data.target_contract,
            tvl,
        }
    }

    pub fn get_tvl(&self) -> (r: Balance)
        ensures
            r == self.tvl,
    {
        self.tvl
    }

    /// `tvl * resolution_fee_percentage / PERCENTAGE_DIVISOR`, rounded down.
    pub fn calc_fee(&self) -> (r: Balance)
        requires
            self.within_limits(),
        ensures
            r == self.fee(),
    {
        calc_product(
            self.get_tvl(),
            self.config.resolution_fee_percentage as u128,
            PERCENTAGE_DIVISOR as u128,
        )
    }

    /// The bond of round 0: the fee, or the validity bond where that is larger.
    pub fn calc_resolution_bond(&self) -> (r: Balance)
        requires
            self.within_limits(),
        ensures
            r == self.resolution_bond(),
    {
        let fee = self.calc_fee();
        if fee > self.config.validity_bond {
            fee
        } else {
            self.config.validity_bond
        }
    }

    /// What the creator gets back of the validity bond: for an answer the
    /// smaller of the fee and the bond, for `Invalid` nothing.
    pub fn calc_validity_bond_to_return(&self) -> (r: Balance)
        requires
            self.within_limits(),
            self.finalized_outcome is Some,
        ensures
            r == self.validity_bond_to_return(),
    {
        let fee = self.calc_fee();
        match &self.finalized_outcome {
            Some(Outcome::Answer(_)) => {
                if fee > self.config.validity_bond {
                    self.config.validity_bond
                } else {
                    fee
                }
            },
            _ => 0,
        }
    }

    /// The pool paid to the correct stakers of round 0: for an answer the
    /// larger of the fee and the validity bond, for `Invalid` both.
    pub fn calc_resolution_fee_payout(&self) -> (r: Balance)
        requires
            self.within_limits(),
            self.finalized_outcome is Some,
        ensures
            r == self.resolution_fee_payout(),
    {
        let fee = self.calc_fee();
        match &self.finalized_outcome {
            Some(Outcome::Answer(_)) => {
                if fee > self.config.validity_bond {
                    fee
                } else {
                    self.config.validity_bond
                }
            },
            _ => fee + self.config.validity_bond,
        }
    }

    pub open spec fn validity_bond_to_return(&self) -> int {
        match self.finalized_outcome->0 {
            Outcome::Answer(_) => min_of(self.fee(), self.config.validity_bond as int),
            Outcome::Invalid => 0,
        }
    }

    pub open spec fn resolution_fee_payout(&self) -> int {
        match self.finalized_outcome->0 {
            Outcome::Answer(_) => max_of(self.fee(), self.config.validity_bond as int),
            Outcome::Invalid => self.fee() + self.config.validity_bond,
        }
    }

    /// Refuses an answer outside the request's fixed answers.
    pub fn assert_valid_outcome(&self, outcome: &Outcome) -> (r: Result<(), OracleError>)
        ensures
            r is Ok <==> self.outcome_allowed(outcome@),
            r is Err ==> r == Err::<(), OracleError>(OracleError::IncompatibleOutcome),
    {
        match &self.outcomes {
            None => Ok(()),
            Some(outcomes) => match outcome {
                Outcome::Invalid => Ok(()),
                Outcome::Answer(AnswerType::Number(_)) => Err(OracleError::IncompatibleOutcome),
                Outcome::Answer(AnswerType::String(s)) => {
                    let mut i: usize = 0;
                    while i < outcomes.len()
                        invariant
                            i <= outcomes@.len(),
                            self.outcomes == Some(*outcomes),
                            outcome@ == OutcomeView::Answer(AnswerView::String(s@)),
                            forall|j: int| 0 <= j < i ==> outcomes@[j]@ != s@,
                        decreases outcomes@.len() - i,
                    {
                        if outcomes[i].eq(s) {
                            assert(lists_answer(outcomes@, s@)) by {
                                assert(outcomes@[i as int]@ == s@);
                            }
                            return Ok(());
                        }
                        i += 1;
                    }
                    Err(OracleError::IncompatibleOutcome)
                },
            },
        }
    }

    /// Refuses a stake on the outcome that the previous round bonded: each
    /// round must contest the decision before it.
    pub fn assert_can_stake_on_outcome(&self, outcome: &Outcome) -> (r: Result<(), OracleError>)
        requires
            self.wf(),
        ensures
            r is Ok <==> !self.repeats_bonded(outcome@),
            r is Err ==> r == Err::<(), OracleError>(OracleError::RepeatedOutcome),
    {
        let n = self.resolution_windows.len();
        if n > 1 {
            match &self.resolution_windows[n - 2].bonded_outcome {
                Some(b) => {
                    if b.eq(outcome) {
                        return Err(OracleError::RepeatedOutcome);
                    }
                },
                None => {},
            }
        }
        Ok(())
    }

    pub fn assert_not_finalized(&self) -> (r: Result<(), OracleError>)
        ensures
            r is Ok <==> self.finalized_outcome is None,
            r is Err ==> r == Err::<(), OracleError>(OracleError::AlreadyFinalized),
    {
        if self.finalized_outcome.is_some() {
            Err(OracleError::AlreadyFinalized)
        } else {
            Ok(())
        }
    }

    pub fn assert_finalized(&self) -> (r: Result<(), OracleError>)
        ensures
            r is Ok <==> self.finalized_outcome is Some,
            r is Err ==> r == Err::<(), OracleError>(OracleError::NotFinalized),
    {
        if self.finalized_outcome.is_some() {
            Ok(())
        } else {
            Err(OracleError::NotFinalized)
        }
    }

    pub fn assert_settlement_time_passed(&self, now: Timestamp) -> (r: Result<(), OracleError>)
        ensures
            r is Ok <==> now >= self.settlement_time,
            r is Err ==> r == Err::<(), OracleError>(OracleError::SettlementTimeNotPassed),
    {
        if now >= self.settlement_time {
            Ok(())
        } else {
            Err(OracleError::SettlementTimeNotPassed)
        }
    }

    /// Refuses automatic finalization where the final arbitrator decides,
    /// where no round has bonded, where the request is final already, or
    /// while the last round's challenge period runs.
    pub fn assert_can_finalize(&self, now: Timestamp) -> (r: Result<(), OracleError>)
        ensures
            r is Ok <==> self.can_finalize(now),
            self.final_arbitrator_triggered ==> r == Err::<(), OracleError>(
                OracleError::FinalArbitratorTriggered,
            ),
            !self.final_arbitrator_triggered && self.resolution_windows@.len() < 2 ==> r == Err::<
                (),
                OracleError,
            >(OracleError::NoResolutionWindows),
            !self.final_arbitrator_triggered && self.resolution_windows@.len() >= 2
                && self.finalized_outcome is Some ==> r == Err::<(), OracleError>(
                OracleError::AlreadyFinalized,
            ),
            !self.final_arbitrator_triggered && self.resolution_windows@.len() >= 2
                && self.finalized_outcome is None && now < self.resolution_windows@.last().end_time
                ==> r == Err::<(), OracleError>(OracleError::ChallengePeriodNotEnded),
    {
        if self.final_arbitrator_triggered {
            return Err(OracleError::FinalArbitratorTriggered);
        }
        let n = self.resolution_windows.len();
        if n < 2 {
            return Err(OracleError::NoResolutionWindows);
        }
        if self.finalized_outcome.is_some() {
            return Err(OracleError::AlreadyFinalized);
        }
        if now < self.resolution_windows[n - 1].end_time {
            return Err(OracleError::ChallengePeriodNotEnded);
        }
        Ok(())
    }

    pub fn assert_final_arbitrator(&self, caller: &AccountId) -> (r: Result<(), OracleError>)
        ensures
            r is Ok <==> caller@ == self.config.final_arbitrator@,
            r is Err ==> r == Err::<(), OracleError>(OracleError::NotFinalArbitrator),
    {
        if self.config.final_arbitrator.eq(caller) {
            Ok(())
        } else {
            Err(OracleError::NotFinalArbitrator)
        }
    }

    pub fn assert_final_arbitrator_invoked(&self) -> (r: Result<(), OracleError>)
        ensures
            r is Ok <==> self.final_arbitrator_triggered,
            r is Err ==> r == Err::<(), OracleError>(OracleError::FinalArbitratorNotTriggered),
    {
        if self.final_arbitrator_triggered {
            Ok(())
        } else {
            Err(OracleError::FinalArbitratorNotTriggered)
        }
    }

    /// The index of the round a stake lands in.
    pub open spec fn open_round(&self) -> int {
        if self.resolution_windows@.len() == 0 {
            0
        } else {
            self.resolution_windows@.len() - 1
        }
    }

    /// What a stake on `o` can still add in the open round; before the first
    /// stake, the whole resolution bond.
    pub open spec fn stake_capacity(&self, o: OutcomeView) -> int {
        if self.resolution_windows@.len() == 0 {
            self.resolution_bond()
        } else {
            self.resolution_windows@.last().capacity(o)
        }
    }

    /// Stake on `o` in the open round so far.
    pub open spec fn open_stake_on(&self, o: OutcomeView) -> nat {
        if self.resolution_windows@.len() == 0 {
            0
        } else {
            self.resolution_windows@.last().stake_on(o)
        }
    }

    /// Stake of account `a` on `o` in the open round so far.
    pub open spec fn open_user_stake_on(&self, a: Seq<char>, o: OutcomeView) -> nat {
        if self.resolution_windows@.len() == 0 {
            0
        } else {
            self.resolution_windows@.last().user_stake_on(a, o)
        }
    }

    /// Records that a window bonded at `bond_size`; the final arbitrator is
    /// invoked from `final_arbitrator_invoke_amount` on. Returns whether it
    /// is invoked now.
    pub fn invoke_final_arbitrator(&mut self, bond_size: Balance) -> (r: bool)
        ensures
            r == final(self).final_arbitrator_triggered,
            final(self).final_arbitrator_triggered == (old(self).final_arbitrator_triggered
                || bond_size >= old(self).config.final_arbitrator_invoke_amount),
            final(self).same_request(old(self)),
            final(self).resolution_windows == old(self).resolution_windows,
            final(self).finalized_outcome == old(self).finalized_outcome,
    {
        let should_invoke = bond_size >= self.config.final_arbitrator_invoke_amount;
        if should_invoke {
            self.final_arbitrator_triggered = true;
        }
        self.final_arbitrator_triggered
    }

    /// Stakes `amount` of `sender` on `outcome` in the open round (opening
    /// round 0 on the first stake) and returns what was not staked. When the
    /// stake bonds the round, the final arbitrator is invoked if the bond has
    /// reached the threshold; otherwise the next round opens with twice the
    /// bond and the default challenge period.
    pub fn stake(&mut self, sender: AccountId, outcome: Outcome, amount: Balance, now: Timestamp) -> (unspent: Balance)
        requires
            old(self).wf(),
            now + old(self).initial_challenge_period <= u64::MAX,
            now + old(self).config.default_challenge_window_duration <= u64::MAX,
        ensures
            final(self).wf(),
            final(self).same_request(old(self)),
            final(self).finalized_outcome == old(self).finalized_outcome,
            unspent == if amount > old(self).stake_capacity(outcome@) {
                amount - old(self).stake_capacity(outcome@)
            } else {
                0
            },
            ({
                let k = old(self).open_round();
                let fw = final(self).resolution_windows@;
                let ow = old(self).resolution_windows@;
                let bonded_now = fw[k].bonded_outcome is Some && (ow.len() == 0
                    || ow[k].bonded_outcome is None);
                &&& forall|i: int| 0 <= i < k ==> #[trigger] fw[i] == ow[i]
                &&& fw[k].stake_on(outcome@) == old(self).open_stake_on(outcome@) + (amount
                    - unspent)
                &&& forall|o: OutcomeView|
                    o != outcome@ ==> #[trigger] fw[k].stake_on(o) == old(self).open_stake_on(o)
                &&& fw[k].user_stake_on(sender@, outcome@) == old(self).open_user_stake_on(
                    sender@,
                    outcome@,
                ) + (amount - unspent)
                &&& forall|a: Seq<char>, o: OutcomeView|
                    (a, o) != (sender@, outcome@) ==> #[trigger] fw[k].user_stake_on(a, o)
                        == old(self).open_user_stake_on(a, o)
                &&& ow.len() == 0 ==> fw[0].start_time == now && fw[0].end_time == now
                    + old(self).initial_challenge_period
                &&& ow.len() > 0 ==> fw[k].same_round(&ow[k])
                &&& final(self).final_arbitrator_triggered == (old(
                    self,
                ).final_arbitrator_triggered || (bonded_now && fw[k].bond_size >= old(
                    self,
                ).config.final_arbitrator_invoke_amount))
                &&& fw.len() == k + 1 + if bonded_now && fw[k].bond_size < old(
                    self,
                ).config.final_arbitrator_invoke_amount {
                    1int
                } else {
                    0int
                }
                &&& fw.len() == k + 2 ==> {
                    &&& fw[k + 1].start_time == now
                    &&& fw[k + 1].end_time == now + old(self).config.default_challenge_window_duration
                    &&& fw[k + 1].bonded_outcome is None
                    &&& forall|o: OutcomeView| #[trigger] fw[k + 1].stake_on(o) == 0
                }
            }),
    {
        let ghost old_self = *self;
        proof {
            lemma2_to64();
        }
        let mut window = match self.resolution_windows.pop() {
            Some(w) => w,
            None => {
                let bond = self.calc_resolution_bond();
                ResolutionWindow::new(self.id, 0, bond, self.initial_challenge_period, now)
            },
        };
        proof {
            if old_self.resolution_windows@.len() > 0 {
                assert(window == old_self.resolution_windows@.last());
            }
        }
        let was_bonded = window.bonded_outcome.is_some();
        let unspent = window.stake(sender, outcome, amount);
        let bonded_now = !was_bonded && window.bonded_outcome.is_some();
        let bond_size = window.bond_size;
        let ghost staked_window = window;
        self.resolution_windows.push(window);
        let ghost k = old_self.open_round();
        proof {
            assert(self.resolution_windows@.len() == k + 1);
            assert(self.resolution_windows@[k] == staked_window);
            assert forall|i: int| 0 <= i < k implies #[trigger] self.resolution_windows@[i]
                == old_self.resolution_windows@[i] by {}
        }
        if bonded_now && !self.invoke_final_arbitrator(bond_size) {
            let ghost pre_push = self.resolution_windows@;
            proof {
                lemma2_to64_rest();
                lemma_pow2_adds(64, 61);
                assert(pow2(125) == 0x2000_0000_0000_0000_0000_0000_0000_0000);
                if k >= 125 {
                    if k > 125 {
                        lemma_pow2_strictly_increases(125, k as nat);
                    }
                }
                assert(k < 125);
                lemma_pow2_unfold((k + 1) as nat);
            }
            let round = self.resolution_windows.len() as u16;
            let next = ResolutionWindow::new(
                self.id,
                round,
                bond_size * 2,
                self.config.default_challenge_window_duration,
                now,
            );
            self.resolution_windows.push(next);
            proof {
                assert forall|i: int| 0 <= i < k + 1 implies #[trigger] self.resolution_windows@[i]
                    == pre_push[i] by {}
            }
        }
        proof {
            let w = self.resolution_windows@;
            assert forall|i: int| 0 < i < w.len() implies #[trigger] w[i].bond_size == 2 * w[i
                - 1].bond_size by {
                if i < k {
                    assert(w[i - 1] == old_self.resolution_windows@[i - 1]);
                }
            }
        }
        unspent
    }

    /// Takes `amount` of `sender`'s stake on `outcome` out of the given round
    /// and returns it. The round is named explicitly so that a round opened in
    /// the meantime does not redirect the call.
    #[verifier::rlimit(50)]
    pub fn unstake(&mut self, sender: AccountId, round: u16, outcome: Outcome, amount: Balance) -> (r:
        Result<Balance, OracleError>)
        requires
            old(self).wf(),
        ensures
            final(self).wf(),
            final(self).same_request(old(self)),
            final(self).finalized_outcome == old(self).finalized_outcome,
            final(self).final_arbitrator_triggered == old(self).final_arbitrator_triggered,
            r is Err ==> *final(self) == *old(self),
            round >= old(self).resolution_windows@.len() ==> r == Err::<Balance, OracleError>(
                OracleError::UnknownRound,
            ),
            ({
                let ow = old(self).resolution_windows@;
                let fw = final(self).resolution_windows@;
                round < ow.len() ==> {
                    &&& ow[round as int].bonded() == Some(outcome@) ==> r == Err::<
                        Balance,
                        OracleError,
                    >(OracleError::BondedOutcome)
                    &&& ow[round as int].bonded() != Some(outcome@) && ow[round as int].user_stake_on(
                        sender@,
                        outcome@,
                    ) < amount ==> r == Err::<Balance, OracleError>(OracleError::InsufficientStake)
                    &&& ow[round as int].bonded() != Some(outcome@) && ow[round as int].user_stake_on(
                        sender@,
                        outcome@,
                    ) >= amount ==> {
                        &&& r == Ok::<Balance, OracleError>(amount)
                        &&& fw.len() == ow.len()
                        &&& forall|i: int|
                            0 <= i < ow.len() && i != round ==> #[trigger] fw[i] == ow[i]
                        &&& fw[round as int].stake_on(outcome@) == ow[round as int].stake_on(
                            outcome@,
                        ) - amount
                        &&& fw[round as int].user_stake_on(sender@, outcome@) == ow[round as int].user_stake_on(
                            sender@,
                            outcome@,
                        ) - amount
                        &&& fw[round as int].same_round(&ow[round as int])
                        &&& fw[round as int].bonded() == ow[round as int].bonded()
                        &&& forall|o: OutcomeView|
                            o != outcome@ ==> #[trigger] fw[round as int].stake_on(o)
                                == ow[round as int].stake_on(o)
                        &&& forall|a: Seq<char>, o: OutcomeView|
                            (a, o) != (sender@, outcome@) ==> #[trigger] fw[round as int].user_stake_on(a, o)
                                == ow[round as int].user_stake_on(a, o)
                    }
                }
            }),
    {
        let ghost old_self = *self;
        let r = round as usize;
        if r >= self.resolution_windows.len() {
            return Err(OracleError::UnknownRound);
        }
        self.resolution_windows[r].check_unstake(&sender, &outcome, amount)?;
        let mut window = self.resolution_windows.remove(r);
        let ghost removed = self.resolution_windows@;
        let res = window.unstake(sender, outcome, amount);
        self.resolution_windows.insert(r, window);
        proof {
            let w = self.resolution_windows@;
            let ow = old_self.resolution_windows@;
            assert forall|i: int| 0 <= i < ow.len() && i != r implies #[trigger] w[i] == ow[i] by {
                if i < r {
                    assert(w[i] == removed[i]);
                } else {
                    assert(w[i] == removed[i - 1]);
                }
            }
            assert forall|i: int| 0 < i < w.len() implies #[trigger] w[i].bond_size == 2 * w[i
                - 1].bond_size by {
                assert(ow[i].bond_size == 2 * ow[i - 1].bond_size);
            }
            assert forall|i: int| 0 <= i < w.len() - 1 implies (#[trigger] w[i]).bonded_outcome is Some
                && w[i].bond_size < self.config.final_arbitrator_invoke_amount by {
                assert(ow[i].bonded_outcome is Some);
                assert(w[i].bonded() == ow[i].bonded());
            }
            assert(w.last().bonded() == ow.last().bonded());
        }
        res
    }

    /// The bonded outcome of the round before the last: the last round is the
    /// one in which no further dispute arrived.
    pub fn get_final_outcome(&self) -> (r: Option<Outcome>)
        requires
            self.wf(),
            self.resolution_windows@.len() >= 2,
        ensures
            opt_view(r) == self.final_outcome_spec(),
            r is Some,
    {
        let n = self.resolution_windows.len();
        match &self.resolution_windows[n - 2].bonded_outcome {
            Some(o) => Some(o.duplicate()),
            None => None,
        }
    }

    /// Settles the request on the outcome of the last bonded round.
    pub fn finalize(&mut self)
        requires
            old(self).wf(),
            old(self).resolution_windows@.len() >= 2,
        ensures
            final(self).wf(),
            final(self).same_request(old(self)),
            final(self).resolution_windows == old(self).resolution_windows,
            final(self).final_arbitrator_triggered == old(self).final_arbitrator_triggered,
            final(self).finalized_outcome is Some,
            opt_view(final(self).finalized_outcome) == old(self).final_outcome_spec(),
    {
        self.finalized_outcome = self.get_final_outcome();
    }

    /// Settles the request on the final arbitrator's decision.
    pub fn finalize_final_arbitrator(&mut self, outcome: Outcome)
        requires
            old(self).wf(),
        ensures
            final(self).wf(),
            final(self).same_request(old(self)),
            final(self).resolution_windows == old(self).resolution_windows,
            final(self).final_arbitrator_triggered == old(self).final_arbitrator_triggered,
            final(self).finalized_outcome == Some(outcome),
    {
        self.finalized_outcome = Some(outcome);
    }

    /// Claims for `account_id` in round `round` alone.
    fn claim_window(&mut self, round: usize, account_id: &AccountId, final_outcome: &Outcome) -> (r:
        WindowStakeResult)
        requires
            round < old(self).resolution_windows@.len(),
            old(self).resolution_windows@[round as int].wf(),
        ensures
            ({
                let ow = old(self).resolution_windows@;
                let fw = final(self).resolution_windows@;
                let o = ow[round as int];
                &&& final(self).same_request(old(self))
                &&& final(self).finalized_outcome == old(self).finalized_outcome
                &&& final(self).final_arbitrator_triggered == old(self).final_arbitrator_triggered
                &&& fw.len() == ow.len()
                &&& forall|j: int| 0 <= j < ow.len() && j != round ==> #[trigger] fw[j] == ow[j]
                &&& window_claimed(fw[round as int], o, account_id@, final_outcome@)
                &&& o.bonded() is None ==> r is NoResult
                &&& o.bonded() is Some && o.bonded() != Some(final_outcome@) ==> r
                    == WindowStakeResult::Incorrect(o.bond_size)
                &&& o.bonded() == Some(final_outcome@) ==> {
                    &&& r is Correct
                    &&& r->Correct_0.bonded_stake == o.bond_size
                    &&& r->Correct_0.user_stake == o.user_stake_on(account_id@, final_outcome@)
                }
            }),
    {
        let r = self.resolution_windows[round].claim_for(account_id.clone(), final_outcome);
        proof {
            reveal(window_claimed);
        }
        r
    }

    /// The payout that a claim of `a` yields on this finalized request.
    pub open spec fn payout(&self, a: Seq<char>) -> int {
        payout_of(self.resolution_windows@, a, self.finalized_outcome->0@, self.resolution_fee_payout())
    }

    /// This request is `before` after account `a` claimed on it.
    pub open spec fn claimed_from(&self, before: &DataRequest, a: Seq<char>) -> bool {
        let w = self.resolution_windows@;
        let ow = before.resolution_windows@;
        &&& self.same_request(before)
        &&& self.finalized_outcome == before.finalized_outcome
        &&& self.final_arbitrator_triggered == before.final_arbitrator_triggered
        &&& w.len() == ow.len()
        &&& forall|i: int|
            0 <= i < w.len() ==> window_claimed(#[trigger] w[i], ow[i], a, before.finalized_outcome->0@)
    }

    /// Pays `account_id` for the rounds it staked on: its share of the round-0
    /// pool where round 0 bonded the final outcome, and its share of the bonds
    /// lost on wrong outcomes, in proportion to its stake on the later rounds
    /// that bonded the final outcome. The stakes paid for are cleared, so a
    /// second claim yields nothing.
    #[verifier::rlimit(50)]
    pub fn claim(&mut self, account_id: AccountId) -> (r: Balance)
        requires
            old(self).wf(),
            old(self).finalized_outcome is Some,
        ensures
            final(self).wf(),
            final(self).claimed_from(old(self), account_id@),
            r == old(self).payout(account_id@),
    {
        let ghost old_self = *self;
        let ghost ow = self.resolution_windows@;
        let ghost a = account_id@;
        let ghost f = self.finalized_outcome->0@;
        let mut total_correct_staked: Balance = 0;
        let mut total_incorrect_staked: Balance = 0;
        let mut user_correct_stake: Balance = 0;
        let resolution_payout = self.calc_resolution_fee_payout();
        let mut resolution_round_earnings: Balance = 0;
        let n = self.resolution_windows.len();
        proof {
            assert forall|j: int| 0 <= j < n implies (#[trigger] ow[j]).wf() && ow[j].bond_size <= u128::MAX / 4 by {}
        }
        let final_outcome = match &self.finalized_outcome {
            Some(o) => o.duplicate(),
            None => Outcome::Invalid,
        };
        let mut round: usize = 0;
        while round < n
            invariant
                n == ow.len(),
                round <= n,
                f == final_outcome@,
                a == account_id@,
                n > 0 ==> ow[0].bond_size > 0,
                ow == old_self.resolution_windows@,
                forall|j: int| 0 <= j < n ==> (#[trigger] ow[j]).wf() && ow[j].bond_size <= u128::MAX / 4,
                forall|j: int| 0 < j < n ==> #[trigger] ow[j].bond_size == 2 * ow[j - 1].bond_size,
                f == old_self.finalized_outcome->0@,
                resolution_payout == old_self.resolution_fee_payout(),
                resolution_payout <= u128::MAX / 4,
                self.resolution_windows@.len() == n,
                self.same_request(&old_self),
                self.finalized_outcome == old_self.finalized_outcome,
                self.final_arbitrator_triggered == old_self.final_arbitrator_triggered,
                forall|j: int| 0 <= j < round ==> window_claimed(#[trigger] self.resolution_windows@[j], ow[j], a, f),
                forall|j: int| round <= j < n ==> #[trigger] self.resolution_windows@[j] == ow[j],
                total_correct_staked == correct_bonds(ow, f, round as int),
                total_incorrect_staked == incorrect_bonds(ow, f, round as int),
                user_correct_stake == correct_user_stake(ow, a, f, round as int),
                resolution_round_earnings == if round > 0 {
                    round0_earnings(ow, a, f, resolution_payout as int)
                } else {
                    0
                },
                resolution_round_earnings <= resolution_payout,
                round > 0 ==> total_correct_staked + total_incorrect_staked <= 2 * ow[round - 1].bond_size,
                round == 0 ==> total_correct_staked + total_incorrect_staked == 0,
                user_correct_stake <= total_correct_staked,
            decreases n - round,
        {
            let ghost wi = ow[round as int];
            proof {
                assert(self.resolution_windows@[round as int] == wi);
                assert(wi.wf());
                wi.lemma_user_le(a, f);
                if round > 0 {
                    assert(ow[round as int].bond_size == 2 * ow[round - 1].bond_size);
                }
            }
            let ghost before_call = self.resolution_windows@;
            let stake_state = self.claim_window(round, &account_id, &final_outcome);
            match stake_state {
                WindowStakeResult::Correct(correctly_staked) => {
                    if round == 0 {
                        proof {
                            lemma_product_div_le(correctly_staked.user_stake as int, resolution_payout as int, correctly_staked.bonded_stake as int);
                        }
                        resolution_round_earnings = calc_product(
                            correctly_staked.user_stake,
                            resolution_payout,
                            correctly_staked.bonded_stake,
                        );
                    } else {
                        total_correct_staked = total_correct_staked + correctly_staked.bonded_stake;
                        user_correct_stake = user_correct_stake + correctly_staked.user_stake;
                    }
                },
                WindowStakeResult::Incorrect(incorrectly_staked) => {
                    total_incorrect_staked = total_incorrect_staked + incorrectly_staked;
                },
                WindowStakeResult::NoResult => {},
            }
            proof {
                let w = self.resolution_windows@;
                assert forall|j: int| 0 <= j < round + 1 implies window_claimed(#[trigger] w[j], ow[j], a, f) by {
                    if j < round {
                        assert(w[j] == before_call[j]);
                    }
                }
            }
            round += 1;
        }
        let shared: Balance = if total_correct_staked == 0 {
            0
        } else {
            proof {
                lemma_product_div_le(user_correct_stake as int, total_incorrect_staked as int, total_correct_staked as int);
            }
            calc_product(user_correct_stake, total_incorrect_staked, total_correct_staked)
        };
        proof {
            lemma_claimed_wf(self, &old_self, a);
        }
        resolution_round_earnings + shared
    }
}

/// Every round after the first bonds at twice the bond of the round before,
/// and round 0 bonds at the larger of the fee and the validity bond.
pub proof fn lemma_bond_escalation(d: &DataRequest)
    requires
        d.wf(),
    ensures
        forall|r: int|
            1 <= r < d.resolution_windows@.len() ==> #[trigger] d.resolution_windows@[r].bond_size
                == 2 * d.resolution_windows@[r - 1].bond_size,
        d.resolution_windows@.len() > 0 ==> d.resolution_windows@[0].bond_size == max_of(
            fee_of(d.tvl as int, d.config.resolution_fee_percentage as int),
            d.config.validity_bond as int,
        ),
{
}

proof fn lemma_no_correct_user_stake(w: Seq<ResolutionWindow>, a: Seq<char>, f: OutcomeView, n: int)
    requires
        0 <= n <= w.len(),
        forall|i: int| 0 <= i < n && #[trigger] w[i].bonded() == Some(f) ==> w[i].user_stake_on(a, f) == 0,
    ensures
        correct_user_stake(w, a, f, n) == 0,
    decreases n,
{
    if n > 1 {
        lemma_no_correct_user_stake(w, a, f, n - 1);
    }
}

/// A second claim of the same account on a finalized request pays nothing.
pub proof fn lemma_claim_idempotent(before: &DataRequest, after: &DataRequest, a: Seq<char>)
    requires
        before.wf(),
        before.finalized_outcome is Some,
        after.claimed_from(before, a),
    ensures
        after.payout(a) == 0,
{
    reveal(window_claimed);
    let w = after.resolution_windows@;
    let ow = before.resolution_windows@;
    let f = before.finalized_outcome->0@;
    assert forall|i: int| 0 <= i < w.len() && #[trigger] w[i].bonded() == Some(f) implies w[i].user_stake_on(a, f) == 0 by {
        assert(window_claimed(w[i], ow[i], a, f));
    }
    lemma_no_correct_user_stake(w, a, f, w.len() as int);
    if w.len() > 0 && w[0].bonded() == Some(f) {
        assert(w[0].user_stake_on(a, f) == 0);
        assert(product_div(0, after.resolution_fee_payout(), w[0].bond_size as int) == 0);
    }
    let c = correct_bonds(w, f, w.len() as int);
    if c != 0 {
        let x = incorrect_bonds(w, f, w.len() as int);
        assert(0 * x == 0);
        assert(0int / c == 0) by (nonlinear_arith)
            requires c != 0;
    }
}

/// The payout of each account on request `d`.
pub open spec fn payout_fn(d: DataRequest) -> spec_fn(Seq<char>) -> int {
    |a: Seq<char>| d.payout(a)
}

/// The round-0 share of each account.
pub open spec fn round0_fn(w: Seq<ResolutionWindow>, f: OutcomeView, pool: int) -> spec_fn(Seq<char>) -> int {
    |a: Seq<char>| round0_earnings(w, a, f, pool)
}

/// The share of each account in the lost bonds.
pub open spec fn shared_fn(w: Seq<ResolutionWindow>, f: OutcomeView) -> spec_fn(Seq<char>) -> int {
    |a: Seq<char>| {
        let n = w.len() as int;
        if correct_bonds(w, f, n) == 0 {
            0
        } else {
            product_div(correct_user_stake(w, a, f, n), incorrect_bonds(w, f, n), correct_bonds(w, f, n))
        }
    }
}

/// The stake of each account on the correct rounds in `1..m`.
pub open spec fn correct_user_stake_fn(w: Seq<ResolutionWindow>, f: OutcomeView, m: int) -> spec_fn(Seq<char>) -> int {
    |a: Seq<char>| correct_user_stake(w, a, f, m)
}

proof fn lemma_sums_nonneg(w: Seq<ResolutionWindow>, a: Seq<char>, f: OutcomeView, m: int)
    ensures
        correct_bonds(w, f, m) >= 0,
        incorrect_bonds(w, f, m) >= 0,
        correct_user_stake(w, a, f, m) >= 0,
    decreases m,
{
    if m > 0 {
        lemma_sums_nonneg(w, a, f, m - 1);
    }
}

proof fn lemma_correct_user_stake_sum(w: Seq<ResolutionWindow>, accts: Seq<Seq<char>>, f: OutcomeView, m: int)
    requires
        0 <= m <= w.len(),
        forall|i: int| 0 <= i < m ==> (#[trigger] w[i]).wf(),
        accts.no_duplicates(),
    ensures
        0 <= sum_over(accts, correct_user_stake_fn(w, f, m)) <= correct_bonds(w, f, m),
    decreases m,
{
    if m <= 1 {
        lemma_sum_over_zero(accts, correct_user_stake_fn(w, f, m));
    } else {
        let k = m - 1;
        lemma_correct_user_stake_sum(w, accts, f, k);
        let t = |a: Seq<char>| if w[k].bonded() == Some(f) {
            w[k].user_stake_on(a, f) as int
        } else {
            0int
        };
        lemma_sum_over_add(accts, correct_user_stake_fn(w, f, m), correct_user_stake_fn(w, f, k), t);
        assert(w[k].wf());
        if w[k].bonded() == Some(f) {
            lemma_accounts_stake_le(w[k], accts, f);
            lemma_sum_over_le(accts, t, user_stake_fn(w[k], f));
            lemma_sum_over_le(accts, user_stake_fn(w[k], f), t);
        } else {
            lemma_sum_over_zero(accts, t);
        }
    }
}

/// For a finalized request, what distinct accounts are owed adds up to no
/// more than the round-0 pool plus the bonds lost on wrong outcomes: no value
/// comes from nothing.
pub proof fn lemma_conservation(d: &DataRequest, accts: Seq<Seq<char>>)
    requires
        d.wf(),
        d.finalized_outcome is Some,
        accts.no_duplicates(),
    ensures
        sum_over(accts, payout_fn(*d)) <= d.resolution_fee_payout() + incorrect_bonds(
            d.resolution_windows@,
            d.finalized_outcome->0@,
            d.resolution_windows@.len() as int,
        ),
{
    let w = d.resolution_windows@;
    let f = d.finalized_outcome->0@;
    let n = w.len() as int;
    let pool = d.resolution_fee_payout();
    let lost = incorrect_bonds(w, f, n);
    let won = correct_bonds(w, f, n);
    lemma_sums_nonneg(w, Seq::empty(), f, n);
    assert(pool >= 0);
    lemma_sum_over_add(accts, payout_fn(*d), round0_fn(w, f, pool), shared_fn(w, f));
    if n > 0 && w[0].bonded() == Some(f) {
        let b = w[0].bond_size as int;
        assert(w[0].wf());
        lemma_sum_over_floor(accts, round0_fn(w, f, pool), user_stake_fn(w[0], f), pool, b);
        lemma_accounts_stake_le(w[0], accts, f);
        let x = sum_over(accts, user_stake_fn(w[0], f));
        assert(x * pool <= b * pool) by (nonlinear_arith)
            requires 0 <= x <= b, pool >= 0;
        assert(x * pool >= 0) by (nonlinear_arith)
            requires 0 <= x, pool >= 0;
        vstd::arithmetic::div_mod::lemma_div_is_ordered(x * pool, b * pool, b);
        assert(b * pool == pool * b) by (nonlinear_arith);
        vstd::arithmetic::div_mod::lemma_div_by_multiple(pool, b);
    } else {
        lemma_sum_over_zero(accts, round0_fn(w, f, pool));
    }
    if won == 0 {
        lemma_sum_over_zero(accts, shared_fn(w, f));
    } else {
        assert forall|a: Seq<char>| #[trigger] correct_user_stake_fn(w, f, n)(a) >= 0 by {
            lemma_sums_nonneg(w, a, f, n);
        }
        lemma_sum_over_floor(accts, shared_fn(w, f), correct_user_stake_fn(w, f, n), lost, won);
        lemma_correct_user_stake_sum(w, accts, f, n);
        let x = sum_over(accts, correct_user_stake_fn(w, f, n));
        assert(x * lost <= won * lost) by (nonlinear_arith)
            requires 0 <= x <= won, lost >= 0;
        vstd::arithmetic::div_mod::lemma_div_is_ordered(x * lost, won * lost, won);
        assert(won * lost == lost * won) by (nonlinear_arith);
        vstd::arithmetic::div_mod::lemma_div_by_multiple(lost, won);
    }
}

proof fn lemma_sums_agree(w1: Seq<ResolutionWindow>, w2: Seq<ResolutionWindow>, b: Seq<char>, f: OutcomeView, m: int)
    requires
        0 <= m <= w1.len(),
        w1.len() == w2.len(),
        forall|i: int|
            0 <= i < m ==> (#[trigger] w1[i]).bonded() == w2[i].bonded() && w1[i].bond_size
                == w2[i].bond_size && w1[i].user_stake_on(b, f) == w2[i].user_stake_on(b, f),
    ensures
        correct_bonds(w1, f, m) == correct_bonds(w2, f, m),
        incorrect_bonds(w1, f, m) == incorrect_bonds(w2, f, m),
        correct_user_stake(w1, b, f, m) == correct_user_stake(w2, b, f, m),
    decreases m,
{
    if m > 0 {
        lemma_sums_agree(w1, w2, b, f, m - 1);
        assert(w1[m - 1].bonded() == w2[m - 1].bonded());
    }
}

/// A claim of one account leaves what every other account is owed as it was.
pub proof fn lemma_claim_independent(before: &DataRequest, after: &DataRequest, a: Seq<char>, b: Seq<char>)
    requires
        before.wf(),
        before.finalized_outcome is Some,
        after.claimed_from(before, a),
        a != b,
    ensures
        after.payout(b) == before.payout(b),
{
    reveal(window_claimed);
    let w = after.resolution_windows@;
    let ow = before.resolution_windows@;
    let f = before.finalized_outcome->0@;
    assert forall|i: int| 0 <= i < w.len() implies (#[trigger] w[i]).bonded() == ow[i].bonded()
        && w[i].bond_size == ow[i].bond_size && w[i].user_stake_on(b, f) == ow[i].user_stake_on(b, f) by {
        assert(window_claimed(w[i], ow[i], a, f));
        assert((b, f) != (a, f));
    }
    lemma_sums_agree(w, ow, b, f, w.len() as int);
    if w.len() > 0 {
        assert(w[0].bonded() == ow[0].bonded());
    }
}

/// `ds[i + 1]` is `ds[i]` after account `accts[i]` claimed, for every `i`.
pub open spec fn claim_run(ds: Seq<DataRequest>, accts: Seq<Seq<char>>) -> bool {
    &&& ds.len() == accts.len() + 1
    &&& forall|i: int| 0 <= i < accts.len() ==> (#[trigger] ds[i + 1]).claimed_from(&ds[i], accts[i])
}

/// What the first `k` claims of a run paid.
pub open spec fn run_payouts(ds: Seq<DataRequest>, accts: Seq<Seq<char>>, k: int) -> int
    decreases k,
{
    if k <= 0 {
        0
    } else {
        run_payouts(ds, accts, k - 1) + ds[k - 1].payout(accts[k - 1])
    }
}

/// What a finalized request can pay out at most: its round-0 pool and the
/// bonds lost on wrong outcomes.
pub open spec fn payout_bound(d: DataRequest) -> int {
    d.resolution_fee_payout() + incorrect_bonds(
        d.resolution_windows@,
        d.finalized_outcome->0@,
        d.resolution_windows@.len() as int,
    )
}

proof fn lemma_run_states(ds: Seq<DataRequest>, accts: Seq<Seq<char>>, k: int)
    requires
        claim_run(ds, accts),
        ds[0].wf(),
        ds[0].finalized_outcome is Some,
        0 <= k <= accts.len(),
    ensures
        ds[k].wf(),
        ds[k].finalized_outcome == ds[0].finalized_outcome,
        payout_bound(ds[k]) == payout_bound(ds[0]),
    decreases k,
{
    if k > 0 {
        lemma_run_states(ds, accts, k - 1);
        let before = ds[k - 1];
        let after = ds[k];
        let j = k - 1;
        assert(ds[j + 1].claimed_from(&ds[j], accts[j]));
        lemma_claimed_wf(&after, &before, accts[k - 1]);
        reveal(window_claimed);
        let f = before.finalized_outcome->0@;
        let other = accts[k - 1].push('_');
        assert(other != accts[k - 1]) by {
            assert(other.len() != accts[k - 1].len());
        }
        let w = after.resolution_windows@;
        let ow = before.resolution_windows@;
        assert forall|i: int| 0 <= i < w.len() implies (#[trigger] w[i]).bonded() == ow[i].bonded()
            && w[i].bond_size == ow[i].bond_size && w[i].user_stake_on(other, f) == ow[i].user_stake_on(other, f) by {
            assert(window_claimed(w[i], ow[i], accts[k - 1], f));
            assert((other, f) != (accts[k - 1], f));
        }
        lemma_sums_agree(w, ow, other, f, w.len() as int);
    }
}

proof fn lemma_run_bound(ds: Seq<DataRequest>, accts: Seq<Seq<char>>, k: int, rest: Seq<Seq<char>>)
    requires
        claim_run(ds, accts),
        ds[0].wf(),
        ds[0].finalized_outcome is Some,
        0 <= k <= accts.len(),
        rest.no_duplicates(),
    ensures
        run_payouts(ds, accts, k) + sum_over(rest, payout_fn(ds[k])) <= payout_bound(ds[0]),
    decreases k,
{
    lemma_run_states(ds, accts, k);
    if k == 0 {
        lemma_conservation(&ds[0], rest);
    } else {
        lemma_run_states(ds, accts, k - 1);
        let before = ds[k - 1];
        let after = ds[k];
        let a = accts[k - 1];
        let j = k - 1;
        assert(ds[j + 1].claimed_from(&ds[j], accts[j]));
        lemma_claim_idempotent(&before, &after, a);
        assert forall|b: Seq<char>| b != a implies #[trigger] payout_fn(after)(b) == payout_fn(before)(b) by {
            lemma_claim_independent(&before, &after, a, b);
        }
        if rest.contains(a) {
            lemma_sum_over_without(rest, payout_fn(after), payout_fn(before), a);
            lemma_run_bound(ds, accts, k - 1, rest);
        } else {
            assert forall|i: int| 0 <= i < rest.len() implies payout_fn(after)(#[trigger] rest[i]) == payout_fn(before)(rest[i]) by {
                assert(rest[i] != a);
            }
            lemma_sum_over_agree(rest, payout_fn(after), payout_fn(before));
            let more = rest.push(a);
            assert(more.no_duplicates()) by {
                assert forall|i: int, j: int| 0 <= i < more.len() && 0 <= j < more.len() && i != j implies more[i] != more[j] by {
                    if i < rest.len() && j < rest.len() {
                        assert(rest[i] != rest[j]);
                    } else if i < rest.len() {
                        assert(rest[i] != a);
                    } else if j < rest.len() {
                        assert(rest[j] != a);
                    }
                }
            }
            assert(more.drop_last() =~= rest);
            lemma_run_bound(ds, accts, k - 1, more);
        }
    }
}

/// However many claims, by whichever accounts and in whichever order, are
/// made on a finalized request, together they pay no more than the round-0
/// pool plus the bonds lost on wrong outcomes.
pub proof fn lemma_conservation_over_claims(ds: Seq<DataRequest>, accts: Seq<Seq<char>>)
    requires
        claim_run(ds, accts),
        ds[0].wf(),
        ds[0].finalized_outcome is Some,
    ensures
        run_payouts(ds, accts, accts.len() as int) <= payout_bound(ds[0]),
{
    lemma_run_bound(ds, accts, accts.len() as int, Seq::empty());
}

} // verus!
