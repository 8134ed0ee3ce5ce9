//! The oracle's entry points: creating data requests, staking, unstaking,
//! finalizing and claiming, each checked before it changes anything. Token
//! movements are left to the caller: each entry point returns the amount to
//! send back.
use crate::data_request::{fee_of, fee_within_limit, max_of, DataRequest, NewDataRequestArgs};
use crate::error::OracleError;
use crate::resolution_window::opt_view;
use crate::types::{AccountId, Balance, Duration, OracleConfig, Outcome, OutcomeView, StakeDataRequestArgs, Timestamp};
use vstd::prelude::*;

verus! {

/// At most this many sources per request.
pub const MAX_SOURCES: u8 = 8;

/// A fixed outcome list holds at least this many answers.
pub const MIN_OUTCOMES: u8 = 2;

/// The first challenge period is at most this many default periods.
pub const MIN_PERIOD_MULTIPLIER: u64 = 3;

/// Settlement may lie at most about three years ahead.
pub const MAX_SETTLEMENT_DURATION: Duration = 94_608_000_000_000_000;

pub struct Contract {
    /// Accounts that may create requests; `None` lets everyone.
    pub whitelist: Option<Vec<AccountId>>,
    pub config: OracleConfig,
    /// The requests, indexed by id.
    pub data_requests: Vec<DataRequest>,
}

/// Whether `list` holds the account `a`.
pub open spec fn lists_account(list: Seq<AccountId>, a: Seq<char>) -> bool {
    exists|i: int| 0 <= i < list.len() && #[trigger] list[i]@ == a
}

impl Contract {
    /// Every request is consistent, sits at the index of its id, and was made
    /// under this configuration with a first challenge period that it allows.
    pub open spec fn wf(&self) -> bool {
        forall|i: int|
            0 <= i < self.data_requests@.len() ==> {
                &&& (#[trigger] self.data_requests@[i]).wf()
                &&& self.data_requests@[i].id == i
                &&& self.data_requests@[i].config == self.config
                &&& self.data_requests@[i].initial_challenge_period <= MIN_PERIOD_MULTIPLIER
                    * self.config.default_challenge_window_duration
            }
    }

    pub open spec fn whitelisted(&self, a: Seq<char>) -> bool {
        match self.whitelist {
            None => true,
            Some(v) => lists_account(v@, a),
        }
    }

    /// The first failed check of a creation request, if any.
    pub open spec fn validation_error(&self, p: &NewDataRequestArgs, now: Timestamp) -> Option<OracleError> {
        if p.sources@.len() > MAX_SOURCES {
            Some(OracleError::TooManySources)
        } else if p.challenge_period < self.config.min_initial_challenge_window_duration {
            Some(OracleError::ChallengePeriodTooShort)
        } else if p.challenge_period > MIN_PERIOD_MULTIPLIER * self.config.default_challenge_window_duration {
            Some(OracleError::ChallengePeriodTooLong)
        } else if p.settlement_time >= now + MAX_SETTLEMENT_DURATION {
            Some(OracleError::SettlementTimeTooFar)
        } else if p.outcomes is Some && (p.outcomes->0@.len() > self.config.max_outcomes
            || p.outcomes->0@.len() < MIN_OUTCOMES) {
            Some(OracleError::InvalidOutcomeCount)
        } else {
            None
        }
    }

    /// Whether a request on `tvl` has a bond above zero and bonds that fit.
    pub open spec fn bond_in_range(&self, tvl: Balance) -> bool {
        let fee = fee_of(tvl as int, self.config.resolution_fee_percentage as int);
        &&& fee + self.config.validity_bond <= u128::MAX / 4
        &&& self.config.final_arbitrator_invoke_amount <= u128::MAX / 8
        &&& max_of(fee, self.config.validity_bond as int) > 0
    }

    pub fn new(initial_whitelist: Option<Vec<AccountId>>, config: OracleConfig) -> (r: Self)
        ensures
            r.wf(),
            r.whitelist == initial_whitelist,
            r.config == config,
            r.data_requests@.len() == 0,
    {
        Contract { whitelist: initial_whitelist, config, data_requests: Vec::new() }
    }

    /// Whether `requestor` is on the whitelist; there is none to be on when
    /// the contract was made without one.
    pub fn whitelist_contains(&self, requestor: &AccountId) -> (r: bool)
        ensures
            r == (self.whitelist is Some && lists_account(self.whitelist->0@, requestor@)),
    {
        match &self.whitelist {
            None => false,
            Some(list) => {
                let mut i: usize = 0;
                while i < list.len()
                    invariant
                        i <= list@.len(),
                        self.whitelist == Some(*list),
                        forall|j: int| 0 <= j < i ==> list@[j]@ != requestor@,
                    decreases list@.len() - i,
                {
                    if list[i].eq(requestor) {
                        assert(list@[i as int]@ == requestor@);
                        return true;
                    }
                    i += 1;
                }
                false
            },
        }
    }

    /// Refuses a requestor that is not whitelisted; without a whitelist
    /// everyone passes.
    pub fn assert_whitelisted(&self, requestor: &AccountId) -> (r: Result<(), OracleError>)
        ensures
            r is Ok <==> self.whitelisted(requestor@),
            r is Err ==> r == Err::<(), OracleError>(OracleError::NotWhitelisted),
    {
        match &self.whitelist {
            None => Ok(()),
            Some(_) => {
                if self.whitelist_contains(requestor) {
                    Ok(())
                } else {
                    Err(OracleError::NotWhitelisted)
                }
            },
        }
    }

    /// Checks the arguments of a new request at time `now`: the number of
    /// sources, the first challenge period, the settlement time and the
    /// number of fixed outcomes.
    pub fn dr_validate(&self, data_request: &NewDataRequestArgs, now: Timestamp) -> (r: Result<(), OracleError>)
        ensures
            r is Ok <==> self.validation_error(data_request, now) is None,
            r is Err ==> r == Err::<(), OracleError>(self.validation_error(data_request, now)->0),
    {
        if data_request.sources.len() > MAX_SOURCES as usize {
            return Err(OracleError::TooManySources);
        }
        if data_request.challenge_period < self.config.min_initial_challenge_window_duration {
            return Err(OracleError::ChallengePeriodTooShort);
        }
        if data_request.challenge_period as u128 > MIN_PERIOD_MULTIPLIER as u128
            * self.config.default_challenge_window_duration as u128 {
            return Err(OracleError::ChallengePeriodTooLong);
        }
        if data_request.settlement_time as u128 >= now as u128 + MAX_SETTLEMENT_DURATION as u128 {
            return Err(OracleError::SettlementTimeTooFar);
        }
        match &data_request.outcomes {
            Some(outcomes) => {
                if outcomes.len() > self.config.max_outcomes as usize || outcomes.len()
                    < MIN_OUTCOMES as usize {
                    return Err(OracleError::InvalidOutcomeCount);
                }
            },
            None => {},
        }
        Ok(())
    }

    /// The first reason why the bond token `token` may not create a request
    /// of `sender` with a deposit of `amount` on `tvl`, if any.
    pub open spec fn new_error(
        &self,
        token: Seq<char>,
        sender: Seq<char>,
        amount: Balance,
        tvl: Balance,
        p: &NewDataRequestArgs,
        now: Timestamp,
    ) -> Option<OracleError> {
        if !self.whitelisted(sender) {
            Some(OracleError::NotWhitelisted)
        } else if token != self.config.bond_token@ {
            Some(OracleError::NotBondToken)
        } else if self.validation_error(p, now) is Some {
            self.validation_error(p, now)
        } else if amount < self.config.validity_bond {
            Some(OracleError::ValidityBondNotReached)
        } else if !self.bond_in_range(tvl) {
            Some(OracleError::BondOutOfRange)
        } else {
            None
        }
    }

    /// This contract is `before` with one request appended: the request of
    /// `sender` on `tvl` made from `p`, with no round yet.
    pub open spec fn appended_request(&self, before: &Contract, sender: AccountId, tvl: Balance, p: NewDataRequestArgs) -> bool {
        let d = self.data_requests@.last();
        &&& self.data_requests@.len() == before.data_requests@.len() + 1
        &&& self.data_requests@.drop_last() == before.data_requests@
        &&& d.id == before.data_requests@.len()
        &&& d.requestor == sender
        &&& d.tvl == tvl
        &&& d.config == before.config
        &&& d.sources == p.sources
        &&& d.outcomes == p.outcomes
        &&& d.settlement_time == p.settlement_time
        &&& d.initial_challenge_period == p.challenge_period
        &&& d.target_contract == p.target_contract
        &&& d.resolution_windows@.len() == 0
        &&& d.finalized_outcome is None
        &&& !d.final_arbitrator_triggered
    }

    /// Refuses a call that does not come from the bond token.
    pub fn assert_bond_token(&self, token: &AccountId) -> (r: Result<(), OracleError>)
        ensures
            r is Ok <==> token@ == self.config.bond_token@,
            r is Err ==> r == Err::<(), OracleError>(OracleError::NotBondToken),
    {
        if self.config.bond_token.eq(token) {
            Ok(())
        } else {
            Err(OracleError::NotBondToken)
        }
    }

    /// Refuses a call that does not come from the stake token.
    pub fn assert_stake_token(&self, token: &AccountId) -> (r: Result<(), OracleError>)
        ensures
            r is Ok <==> token@ == self.config.stake_token@,
            r is Err ==> r == Err::<(), OracleError>(OracleError::NotStakeToken),
    {
        if self.config.stake_token.eq(token) {
            Ok(())
        } else {
            Err(OracleError::NotStakeToken)
        }
    }

    /// Creates a request of `sender`, who deposited `amount` of the bond
    /// token `token` towards the validity bond, on the total value locked
    /// `tvl`. Returns the part of the deposit above the validity bond.
    pub fn dr_new(
        &mut self,
        token: &AccountId,
        sender: AccountId,
        amount: Balance,
        tvl: Balance,
        payload: NewDataRequestArgs,
        now: Timestamp,
    ) -> (r: Result<Balance, OracleError>)
        requires
            old(self).wf(),
        ensures
            final(self).wf(),
            final(self).config == old(self).config,
            final(self).whitelist == old(self).whitelist,
            old(self).new_error(token@, sender@, amount, tvl, &payload, now) is Some ==> {
                &&& r == Err::<Balance, OracleError>(old(self).new_error(token@, sender@, amount, tvl, &payload, now)->0)
                &&& final(self).data_requests@ == old(self).data_requests@
            },
            old(self).new_error(token@, sender@, amount, tvl, &payload, now) is None ==> {
                &&& r == Ok::<Balance, OracleError>((amount - old(self).config.validity_bond) as Balance)
                &&& final(self).appended_request(old(self), sender, tvl, payload)
            },
    {
        self.assert_whitelisted(&sender)?;
        self.assert_bond_token(token)?;
        self.dr_validate(&payload, now)?;
        if amount < self.config.validity_bond {
            return Err(OracleError::ValidityBondNotReached);
        }
        let fee = match fee_within_limit(tvl, self.config.resolution_fee_percentage) {
            Some(fee) => fee,
            None => {
                return Err(OracleError::BondOutOfRange);
            },
        };
        if self.config.validity_bond > u128::MAX / 4 - fee || self.config.final_arbitrator_invoke_amount
            > u128::MAX / 8 || (fee == 0 && self.config.validity_bond == 0) {
            return Err(OracleError::BondOutOfRange);
        }
        let ghost old_self = *self;
        let id = self.data_requests.len() as u64;
        let dr = DataRequest::new(sender, id, self.config.duplicate(), payload, tvl);
        self.data_requests.push(dr);
        proof {
            assert(self.data_requests@.drop_last() =~= old_self.data_requests@);
        }
        Ok(amount - self.config.validity_bond)
    }

    /// The request with the given id.
    pub fn dr_get(&self, id: u64) -> (r: Option<&DataRequest>)
        ensures
            id < self.data_requests@.len() ==> r == Some(&self.data_requests@[id as int]),
            id >= self.data_requests@.len() ==> r is None,
    {
        if id < self.data_requests.len() as u64 {
            Some(&self.data_requests[id as usize])
        } else {
            None
        }
    }

    /// The first reason why a stake paid in `token` on `outcome` in request
    /// `id` at time `now` is refused, if any.
    pub open spec fn stake_error(&self, token: Seq<char>, id: u64, outcome: OutcomeView, now: Timestamp) -> Option<OracleError> {
        if token != self.config.stake_token@ {
            Some(OracleError::NotStakeToken)
        } else if id >= self.data_requests@.len() {
            Some(OracleError::UnknownDataRequest)
        } else {
            let d = self.data_requests@[id as int];
            if d.repeats_bonded(outcome) {
                Some(OracleError::RepeatedOutcome)
            } else if !d.outcome_allowed(outcome) {
                Some(OracleError::IncompatibleOutcome)
            } else if d.finalized_outcome is Some {
                Some(OracleError::AlreadyFinalized)
            } else if now < d.settlement_time {
                Some(OracleError::SettlementTimeNotPassed)
            } else {
                None
            }
        }
    }

    /// Stakes `amount` of the stake token `token`, sent by `sender`, on the
    /// outcome named in `payload`, and returns what was not staked. The
    /// request changes as `DataRequest::stake` states.
    pub fn dr_stake(&mut self, token: &AccountId, sender: AccountId, amount: Balance, payload: StakeDataRequestArgs, now: Timestamp) -> (r: Result<Balance, OracleError>)
        requires
            old(self).wf(),
            now + MIN_PERIOD_MULTIPLIER * old(self).config.default_challenge_window_duration <= u64::MAX,
        ensures
            final(self).wf(),
            final(self).config == old(self).config,
            final(self).whitelist == old(self).whitelist,
            final(self).data_requests@.len() == old(self).data_requests@.len(),
            old(self).stake_error(token@, payload.id, payload.outcome@, now) is Some ==> {
                &&& r == Err::<Balance, OracleError>(old(self).stake_error(token@, payload.id, payload.outcome@, now)->0)
                &&& final(self).data_requests@ == old(self).data_requests@
            },
            old(self).stake_error(token@, payload.id, payload.outcome@, now) is None ==> ({
                let d = old(self).data_requests@[payload.id as int];
                let fd = final(self).data_requests@[payload.id as int];
                let o = payload.outcome@;
                let k = d.open_round();
                let fw = fd.resolution_windows@;
                let ow = d.resolution_windows@;
                let bonded_now = fw[k].bonded_outcome is Some && (ow.len() == 0 || ow[k].bonded_outcome is None);
                &&& r is Ok
                &&& r->Ok_0 == if amount > d.stake_capacity(o) {
                    amount - d.stake_capacity(o)
                } else {
                    0
                }
                &&& fd.same_request(&d)
                &&& fd.finalized_outcome == d.finalized_outcome
                &&& forall|i: int| 0 <= i < k ==> #[trigger] fw[i] == ow[i]
                &&& fw[k].stake_on(o) == d.open_stake_on(o) + (amount - r->Ok_0)
                &&& forall|x: OutcomeView| x != o ==> #[trigger] fw[k].stake_on(x) == d.open_stake_on(x)
                &&& fw[k].user_stake_on(sender@, o) == d.open_user_stake_on(sender@, o) + (amount - r->Ok_0)
                &&& forall|a: Seq<char>, x: OutcomeView|
                    (a, x) != (sender@, o) ==> #[trigger] fw[k].user_stake_on(a, x) == d.open_user_stake_on(a, x)
                &&& ow.len() == 0 ==> fw[0].start_time == now && fw[0].end_time == now + d.initial_challenge_period
                &&& ow.len() > 0 ==> fw[k].same_round(&ow[k])
                &&& fd.final_arbitrator_triggered == (d.final_arbitrator_triggered || (bonded_now
                    && fw[k].bond_size >= d.config.final_arbitrator_invoke_amount))
                &&& fw.len() == k + 1 + if bonded_now && fw[k].bond_size < d.config.final_arbitrator_invoke_amount {
                    1int
                } else {
                    0int
                }
                &&& fw.len() == k + 2 ==> {
                    &&& fw[k + 1].start_time == now
                    &&& fw[k + 1].end_time == now + d.config.default_challenge_window_duration
                    &&& fw[k + 1].bonded_outcome is None
                    &&& forall|x: OutcomeView| #[trigger] fw[k + 1].stake_on(x) == 0
                }
                &&& forall|i: int| 0 <= i < old(self).data_requests@.len() && i != payload.id ==> #[trigger] final(self).data_requests@[i] == old(self).data_requests@[i]
            }),
    {
        self.assert_stake_token(token)?;
        if payload.id >= self.data_requests.len() as u64 {
            return Err(OracleError::UnknownDataRequest);
        }
        let id = payload.id as usize;
        self.data_requests[id].assert_can_stake_on_outcome(&payload.outcome)?;
        self.data_requests[id].assert_valid_outcome(&payload.outcome)?;
        self.data_requests[id].assert_not_finalized()?;
        self.data_requests[id].assert_settlement_time_passed(now)?;
        let ghost before = self.data_requests@;
        let unspent = self.data_requests[id].stake(sender, payload.outcome, amount, now);
        proof {
            let w = self.data_requests@;
            assert forall|i: int| 0 <= i < w.len() implies {
                &&& (#[trigger] w[i]).wf()
                &&& w[i].id == i
                &&& w[i].config == self.config
                &&& w[i].initial_challenge_period <= MIN_PERIOD_MULTIPLIER
                    * self.config.default_challenge_window_duration
            } by {
                if i != id {
                    assert(w[i] == before[i]);
                }
            }
        }
        Ok(unspent)
    }

    /// The first reason why `sender` may not take `amount` of its stake on
    /// `outcome` out of round `round` of request `id`, if any.
    pub open spec fn unstake_error(&self, sender: Seq<char>, id: u64, round: u16, outcome: OutcomeView, amount: Balance) -> Option<OracleError> {
        if id >= self.data_requests@.len() {
            Some(OracleError::UnknownDataRequest)
        } else {
            let d = self.data_requests@[id as int];
            let w = d.resolution_windows@;
            if d.finalized_outcome is Some {
                Some(OracleError::AlreadyFinalized)
            } else if round >= w.len() {
                Some(OracleError::UnknownRound)
            } else if w[round as int].bonded() == Some(outcome) {
                Some(OracleError::BondedOutcome)
            } else if w[round as int].user_stake_on(sender, outcome) < amount {
                Some(OracleError::InsufficientStake)
            } else {
                None
            }
        }
    }

    /// Takes `amount` of `sender`'s stake on `outcome` out of round `round` of
    /// request `request_id` and returns it.
    pub fn dr_unstake(&mut self, sender: AccountId, request_id: u64, round: u16, outcome: Outcome, amount: Balance) -> (r: Result<Balance, OracleError>)
        requires
            old(self).wf(),
        ensures
            final(self).wf(),
            final(self).config == old(self).config,
            final(self).whitelist == old(self).whitelist,
            final(self).data_requests@.len() == old(self).data_requests@.len(),
            old(self).unstake_error(sender@, request_id, round, outcome@, amount) is Some ==> {
                &&& r == Err::<Balance, OracleError>(old(self).unstake_error(sender@, request_id, round, outcome@, amount)->0)
                &&& final(self).data_requests@ == old(self).data_requests@
            },
            old(self).unstake_error(sender@, request_id, round, outcome@, amount) is None ==> ({
                let d = old(self).data_requests@[request_id as int];
                let fd = final(self).data_requests@[request_id as int];
                let w = d.resolution_windows@;
                let fw = fd.resolution_windows@;
                let rw = w[round as int];
                let frw = fw[round as int];
                &&& r == Ok::<Balance, OracleError>(amount)
                &&& fd.same_request(&d)
                &&& fd.finalized_outcome == d.finalized_outcome
                &&& fd.final_arbitrator_triggered == d.final_arbitrator_triggered
                &&& fw.len() == w.len()
                &&& forall|i: int| 0 <= i < w.len() && i != round ==> #[trigger] fw[i] == w[i]
                &&& frw.same_round(&rw)
                &&& frw.bonded() == rw.bonded()
                &&& frw.stake_on(outcome@) == rw.stake_on(outcome@) - amount
                &&& frw.user_stake_on(sender@, outcome@) == rw.user_stake_on(sender@, outcome@) - amount
                &&& forall|o: OutcomeView| o != outcome@ ==> #[trigger] frw.stake_on(o) == rw.stake_on(o)
                &&& forall|a: Seq<char>, o: OutcomeView|
                    (a, o) != (sender@, outcome@) ==> #[trigger] frw.user_stake_on(a, o) == rw.user_stake_on(a, o)
                &&& forall|i: int| 0 <= i < old(self).data_requests@.len() && i != request_id ==> #[trigger] final(self).data_requests@[i] == old(self).data_requests@[i]
            }),
    {
        if request_id >= self.data_requests.len() as u64 {
            return Err(OracleError::UnknownDataRequest);
        }
        let id = request_id as usize;
        self.data_requests[id].assert_not_finalized()?;
        let ghost before = self.data_requests@;
        let res = self.data_requests[id].unstake(sender, round, outcome, amount);
        proof {
            let w = self.data_requests@;
            assert forall|i: int| 0 <= i < w.len() implies {
                &&& (#[trigger] w[i]).wf()
                &&& w[i].id == i
                &&& w[i].config == self.config
                &&& w[i].initial_challenge_period <= MIN_PERIOD_MULTIPLIER
                    * self.config.default_challenge_window_duration
            } by {
                if i != id {
                    assert(w[i] == before[i]);
                }
            }
            if res is Err {
                assert(w =~= before);
            }
        }
        res
    }

    /// Pays `account_id` for its stakes in the finalized request `request_id`.
    pub fn dr_claim(&mut self, account_id: AccountId, request_id: u64) -> (r: Result<Balance, OracleError>)
        requires
            old(self).wf(),
        ensures
            final(self).wf(),
            final(self).config == old(self).config,
            final(self).whitelist == old(self).whitelist,
            final(self).data_requests@.len() == old(self).data_requests@.len(),
            request_id >= old(self).data_requests@.len() ==> r == Err::<Balance, OracleError>(OracleError::UnknownDataRequest),
            request_id < old(self).data_requests@.len() && old(self).data_requests@[request_id as int].finalized_outcome is None
                ==> r == Err::<Balance, OracleError>(OracleError::NotFinalized),
            r is Err ==> final(self).data_requests@ == old(self).data_requests@,
            request_id < old(self).data_requests@.len() && old(self).data_requests@[request_id as int].finalized_outcome is Some
                ==> r is Ok,
            r is Ok ==> ({
                let d = old(self).data_requests@[request_id as int];
                &&& request_id < old(self).data_requests@.len()
                &&& d.finalized_outcome is Some
                &&& r->Ok_0 == d.payout(account_id@)
                &&& final(self).data_requests@[request_id as int].claimed_from(&d, account_id@)
                &&& forall|i: int| 0 <= i < old(self).data_requests@.len() && i != request_id ==> #[trigger] final(self).data_requests@[i] == old(self).data_requests@[i]
            }),
    {
        if request_id >= self.data_requests.len() as u64 {
            return Err(OracleError::UnknownDataRequest);
        }
        let id = request_id as usize;
        self.data_requests[id].assert_finalized()?;
        let ghost before = self.data_requests@;
        let payout = self.data_requests[id].claim(account_id);
        proof {
            let w = self.data_requests@;
            assert forall|i: int| 0 <= i < w.len() implies {
                &&& (#[trigger] w[i]).wf()
                &&& w[i].id == i
                &&& w[i].config == self.config
                &&& w[i].initial_challenge_period <= MIN_PERIOD_MULTIPLIER
                    * self.config.default_challenge_window_duration
            } by {
                if i != id {
                    assert(w[i] == before[i]);
                }
            }
        }
        Ok(payout)
    }

    /// Finalizes request `request_id` on the outcome of its last bonded round,
    /// once the last round's challenge period has ended at `now`. Returns
    /// the part of the validity bond that goes back to the creator.
    pub fn dr_finalize(&mut self, request_id: u64, now: Timestamp) -> (r: Result<Balance, OracleError>)
        requires
            old(self).wf(),
        ensures
            final(self).wf(),
            final(self).config == old(self).config,
            final(self).whitelist == old(self).whitelist,
            final(self).data_requests@.len() == old(self).data_requests@.len(),
            request_id >= old(self).data_requests@.len() ==> r == Err::<Balance, OracleError>(OracleError::UnknownDataRequest),
            request_id < old(self).data_requests@.len() ==> ({
                let d = old(self).data_requests@[request_id as int];
                let w = d.resolution_windows@;
                &&& r is Ok <==> d.can_finalize(now)
                &&& d.final_arbitrator_triggered ==> r == Err::<Balance, OracleError>(OracleError::FinalArbitratorTriggered)
                &&& !d.final_arbitrator_triggered && w.len() < 2 ==> r == Err::<Balance, OracleError>(OracleError::NoResolutionWindows)
                &&& !d.final_arbitrator_triggered && w.len() >= 2 && d.finalized_outcome is Some
                    ==> r == Err::<Balance, OracleError>(OracleError::AlreadyFinalized)
                &&& !d.final_arbitrator_triggered && w.len() >= 2 && d.finalized_outcome is None
                    && now < w.last().end_time ==> r == Err::<Balance, OracleError>(OracleError::ChallengePeriodNotEnded)
            }),
            r is Err ==> final(self).data_requests@ == old(self).data_requests@,
            r is Ok ==> ({
                let d = old(self).data_requests@[request_id as int];
                let fd = final(self).data_requests@[request_id as int];
                &&& fd.finalized_outcome is Some
                &&& opt_view(fd.finalized_outcome) == d.final_outcome_spec()
                &&& fd.resolution_windows == d.resolution_windows
                &&& r->Ok_0 == fd.validity_bond_to_return()
                &&& forall|i: int| 0 <= i < old(self).data_requests@.len() && i != request_id ==> #[trigger] final(self).data_requests@[i] == old(self).data_requests@[i]
            }),
    {
        if request_id >= self.data_requests.len() as u64 {
            return Err(OracleError::UnknownDataRequest);
        }
        let id = request_id as usize;
        self.data_requests[id].assert_can_finalize(now)?;
        let ghost before = self.data_requests@;
        self.data_requests[id].finalize();
        let bond_to_return = self.data_requests[id].calc_validity_bond_to_return();
        proof {
            let w = self.data_requests@;
            assert forall|i: int| 0 <= i < w.len() implies {
                &&& (#[trigger] w[i]).wf()
                &&& w[i].id == i
                &&& w[i].config == self.config
                &&& w[i].initial_challenge_period <= MIN_PERIOD_MULTIPLIER
                    * self.config.default_challenge_window_duration
            } by {
                if i != id {
                    assert(w[i] == before[i]);
                }
            }
        }
        Ok(bond_to_return)
    }

    /// Finalizes request `request_id` on the decision `outcome` of `caller`,
    /// who must be its final arbitrator, once the arbitrator was invoked.
    /// Returns the part of the validity bond that goes back to the creator.
    pub fn dr_final_arbitrator_finalize(&mut self, caller: &AccountId, request_id: u64, outcome: Outcome) -> (r: Result<Balance, OracleError>)
        requires
            old(self).wf(),
        ensures
            final(self).wf(),
            final(self).config == old(self).config,
            final(self).whitelist == old(self).whitelist,
            final(self).data_requests@.len() == old(self).data_requests@.len(),
            request_id >= old(self).data_requests@.len() ==> r == Err::<Balance, OracleError>(OracleError::UnknownDataRequest),
            request_id < old(self).data_requests@.len() ==> ({
                let d = old(self).data_requests@[request_id as int];
                &&& caller@ != d.config.final_arbitrator@ ==> r == Err::<Balance, OracleError>(OracleError::NotFinalArbitrator)
                &&& caller@ == d.config.final_arbitrator@ && !d.outcome_allowed(outcome@)
                    ==> r == Err::<Balance, OracleError>(OracleError::IncompatibleOutcome)
                &&& caller@ == d.config.final_arbitrator@ && d.outcome_allowed(outcome@) && !d.final_arbitrator_triggered
                    ==> r == Err::<Balance, OracleError>(OracleError::FinalArbitratorNotTriggered)
                &&& caller@ == d.config.final_arbitrator@ && d.outcome_allowed(outcome@) && d.final_arbitrator_triggered
                    && d.finalized_outcome is Some ==> r == Err::<Balance, OracleError>(OracleError::AlreadyFinalized)
                &&& caller@ == d.config.final_arbitrator@ && d.outcome_allowed(outcome@) && d.final_arbitrator_triggered
                    && d.finalized_outcome is None ==> r is Ok
            }),
            r is Err ==> final(self).data_requests@ == old(self).data_requests@,
            r is Ok ==> ({
                let d = old(self).data_requests@[request_id as int];
                let fd = final(self).data_requests@[request_id as int];
                &&& fd.finalized_outcome == Some(outcome)
                &&& fd.resolution_windows == d.resolution_windows
                &&& r->Ok_0 == fd.validity_bond_to_return()
                &&& forall|i: int| 0 <= i < old(self).data_requests@.len() && i != request_id ==> #[trigger] final(self).data_requests@[i] == old(self).data_requests@[i]
            }),
    {
        if request_id >= self.data_requests.len() as u64 {
            return Err(OracleError::UnknownDataRequest);
        }
        let id = request_id as usize;
        self.data_requests[id].assert_final_arbitrator(caller)?;
        self.data_requests[id].assert_valid_outcome(&outcome)?;
        self.data_requests[id].assert_final_arbitrator_invoked()?;
        self.data_requests[id].assert_not_finalized()?;
        let ghost before = self.data_requests@;
        self.data_requests[id].finalize_final_arbitrator(outcome);
        let bond_to_return = self.data_requests[id].calc_validity_bond_to_return();
        proof {
            let w = self.data_requests@;
            assert forall|i: int| 0 <= i < w.len() implies {
                &&& (#[trigger] w[i]).wf()
                &&& w[i].id == i
                &&& w[i].config == self.config
                &&& w[i].initial_challenge_period <= MIN_PERIOD_MULTIPLIER
                    * self.config.default_challenge_window_duration
            } by {
                if i != id {
                    assert(w[i] == before[i]);
                }
            }
        }
        Ok(bond_to_return)
    }

    /// Continues the creation of a request once the total value locked has
    /// been fetched: `tvl` is `None` where the fetch failed, which aborts the
    /// creation and changes nothing; otherwise this is `dr_new` on it.
    pub fn proceed_dr_new(
        &mut self,
        token: &AccountId,
        sender: AccountId,
        amount: Balance,
        tvl: Option<Balance>,
        payload: NewDataRequestArgs,
        now: Timestamp,
    ) -> (r: Result<Balance, OracleError>)
        requires
            old(self).wf(),
        ensures
            final(self).wf(),
            final(self).config == old(self).config,
            final(self).whitelist == old(self).whitelist,
            tvl is None ==> {
                &&& r == Err::<Balance, OracleError>(OracleError::TvlUnavailable)
                &&& final(self).data_requests@ == old(self).data_requests@
            },
            tvl is Some && old(self).new_error(token@, sender@, amount, tvl->0, &payload, now) is Some ==> {
                &&& r == Err::<Balance, OracleError>(old(self).new_error(token@, sender@, amount, tvl->0, &payload, now)->0)
                &&& final(self).data_requests@ == old(self).data_requests@
            },
            tvl is Some && old(self).new_error(token@, sender@, amount, tvl->0, &payload, now) is None ==> {
                &&& r == Ok::<Balance, OracleError>((amount - old(self).config.validity_bond) as Balance)
                &&& final(self).appended_request(old(self), sender, tvl->0, payload)
            },
    {
        match tvl {
            None => Err(OracleError::TvlUnavailable),
            Some(tvl) => self.dr_new(token, sender, amount, tvl, payload, now),
        }
    }

    /// Refuses a caller other than the governance account.
    pub fn assert_gov(&self, caller: &AccountId) -> (r: Result<(), OracleError>)
        ensures
            r is Ok <==> caller@ == self.config.gov@,
            r is Err ==> r == Err::<(), OracleError>(OracleError::NotGov),
    {
        if self.config.gov.eq(caller) {
            Ok(())
        } else {
            Err(OracleError::NotGov)
        }
    }

    /// Puts `new_requestor` on the whitelist, starting one where there is
    /// none; only the governance account may.
    pub fn add_to_whitelist(&mut self, caller: &AccountId, new_requestor: AccountId) -> (r: Result<(), OracleError>)
        requires
            old(self).wf(),
        ensures
            final(self).wf(),
            final(self).config == old(self).config,
            final(self).data_requests == old(self).data_requests,
            (r is Ok) == (caller@ == old(self).config.gov@),
            r is Err ==> r == Err::<(), OracleError>(OracleError::NotGov) && final(self).whitelist == old(self).whitelist,
            r is Ok ==> final(self).whitelist is Some && forall|a: Seq<char>|
                #[trigger] lists_account(final(self).whitelist->0@, a) == (a == new_requestor@ || (old(self).whitelist is Some
                    && lists_account(old(self).whitelist->0@, a))),
    {
        self.assert_gov(caller)?;
        let ghost added = new_requestor@;
        let mut list = match self.whitelist.take() {
            Some(list) => list,
            None => Vec::new(),
        };
        let ghost before = list@;
        list.push(new_requestor);
        proof {
            assert forall|a: Seq<char>| #[trigger] lists_account(list@, a) == (a == added || lists_account(before, a)) by {
                if lists_account(before, a) {
                    let i = choose|i: int| 0 <= i < before.len() && #[trigger] before[i]@ == a;
                    assert(list@[i]@ == a);
                }
                if a == added {
                    assert(list@[before.len() as int]@ == a);
                }
                if lists_account(list@, a) && a != added {
                    let i = choose|i: int| 0 <= i < list@.len() && #[trigger] list@[i]@ == a;
                    assert(before[i]@ == a);
                }
            }
        }
        self.whitelist = Some(list);
        Ok(())
    }

    /// Takes `requestor` off the whitelist; only the governance account may,
    /// and only where there is a whitelist.
    pub fn remove_from_whitelist(&mut self, caller: &AccountId, requestor: &AccountId) -> (r: Result<(), OracleError>)
        requires
            old(self).wf(),
        ensures
            final(self).wf(),
            final(self).config == old(self).config,
            final(self).data_requests == old(self).data_requests,
            caller@ != old(self).config.gov@ ==> r == Err::<(), OracleError>(OracleError::NotGov),
            caller@ == old(self).config.gov@ && old(self).whitelist is None ==> r == Err::<(), OracleError>(OracleError::NoWhitelist),
            caller@ == old(self).config.gov@ && old(self).whitelist is Some ==> r is Ok,
            r is Err ==> final(self).whitelist == old(self).whitelist,
            r is Ok ==> old(self).whitelist is Some && final(self).whitelist is Some && forall|a: Seq<char>|
                #[trigger] lists_account(final(self).whitelist->0@, a) == (a != requestor@ && lists_account(old(self).whitelist->0@, a)),
    {
        self.assert_gov(caller)?;
        let list = match &self.whitelist {
            Some(list) => list,
            None => {
                return Err(OracleError::NoWhitelist);
            },
        };
        let mut kept: Vec<AccountId> = Vec::new();
        let mut i: usize = 0;
        while i < list.len()
            invariant
                i <= list@.len(),
                forall|a: Seq<char>| #[trigger] lists_account(kept@, a) == (a != requestor@ && exists|j: int| 0 <= j < i && #[trigger] list@[j]@ == a),
            decreases list@.len() - i,
        {
            let ghost pre = kept@;
            if !list[i].eq(requestor) {
                kept.push(list[i].clone());
            }
            proof {
                assert forall|a: Seq<char>| #[trigger] lists_account(kept@, a) == (a != requestor@ && exists|j: int| 0 <= j < i + 1 && #[trigger] list@[j]@ == a) by {
                    if lists_account(pre, a) {
                        let k = choose|k: int| 0 <= k < pre.len() && #[trigger] pre[k]@ == a;
                        assert(kept@[k]@ == a);
                    }
                    if lists_account(kept@, a) {
                        let k = choose|k: int| 0 <= k < kept@.len() && #[trigger] kept@[k]@ == a;
                        if k < pre.len() {
                            assert(pre[k]@ == a);
                        } else {
                            assert(list@[i as int]@ == a);
                        }
                    }
                    if a != requestor@ && list@[i as int]@ == a {
                        assert(kept@[kept@.len() - 1]@ == a);
                    }
                    if a != requestor@ && exists|j: int| 0 <= j < i + 1 && #[trigger] list@[j]@ == a {
                        let j = choose|j: int| 0 <= j < i + 1 && #[trigger] list@[j]@ == a;
                        if j < i {
                            assert(lists_account(pre, a));
                        }
                    }
                }
            }
            i += 1;
        }
        self.whitelist = Some(kept);
        Ok(())
    }
}

} // verus!
