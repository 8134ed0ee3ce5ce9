//! One round of the escalation game: stakes per outcome and per account, and
//! the outcome that filled the round's bond.
use crate::error::OracleError;
use crate::ledger::{
    amount_of, key_is, keys_unique, lemma_absent_amount, lemma_push_amount, lemma_set_amount,
    lemma_sum_ext, lemma_sum_mono, lemma_sum_partition, lemma_sum_push, lemma_sum_update,
    lemma_unique_amount, sum_over, sum_where,
};
use crate::types::{AccountId, Balance, Outcome, OutcomeView, Timestamp};
use vstd::prelude::*;

verus! {

/// Cumulative stake on one outcome in a window.
pub struct OutcomeStake {
    pub outcome: Outcome,
    pub amount: Balance,
}

/// What one account has staked on one outcome in a window.
pub struct UserStake {
    pub account: AccountId,
    pub outcome: Outcome,
    pub amount: Balance,
}

/// What a window contributes to an account's payout.
pub enum WindowStakeResult {
    /// The window bonded an outcome other than the final one: its bond is lost.
    Incorrect(Balance),
    /// The window bonded the final outcome.
    Correct(CorrectStake),
    /// The window never bonded (the last window of a request).
    NoResult,
}

pub struct CorrectStake {
    /// The window's whole bond.
    pub bonded_stake: Balance,
    /// The account's part of it.
    pub user_stake: Balance,
}

pub struct ResolutionWindow {
    pub dr_id: u64,
    pub round: u16,
    pub start_time: Timestamp,
    pub end_time: Timestamp,
    /// Stake that one outcome needs to bond the window.
    pub bond_size: Balance,
    pub outcome_to_stake: Vec<OutcomeStake>,
    pub user_to_outcome_to_stake: Vec<UserStake>,
    pub bonded_outcome: Option<Outcome>,
}

/// The outcome ledger as keys and amounts.
pub open spec fn outcome_entries(s: Seq<OutcomeStake>) -> Seq<(OutcomeView, nat)> {
    s.map_values(|e: OutcomeStake| (e.outcome@, e.amount as nat))
}

/// The account ledger as keys and amounts.
pub open spec fn user_entries(s: Seq<UserStake>) -> Seq<((Seq<char>, OutcomeView), nat)> {
    s.map_values(|e: UserStake| ((e.account@, e.outcome@), e.amount as nat))
}

/// Selects the account entries on outcome `o`.
pub open spec fn on_outcome(o: OutcomeView) -> spec_fn((Seq<char>, OutcomeView)) -> bool {
    |k: (Seq<char>, OutcomeView)| k.1 == o
}

/// The view of an optional outcome.
pub open spec fn opt_view(o: Option<Outcome>) -> Option<OutcomeView> {
    match o {
        Some(x) => Some(x@),
        None => None,
    }
}

proof fn lemma_outcome_entries_set(s: Seq<OutcomeStake>, i: int, e: OutcomeStake)
    requires
        0 <= i < s.len(),
    ensures
        outcome_entries(s.update(i, e)) == outcome_entries(s).update(
            i,
            (e.outcome@, e.amount as nat),
        ),
{
    assert(outcome_entries(s.update(i, e)) =~= outcome_entries(s).update(
        i,
        (e.outcome@, e.amount as nat),
    ));
}

proof fn lemma_outcome_entries_push(s: Seq<OutcomeStake>, e: OutcomeStake)
    ensures
        outcome_entries(s.push(e)) == outcome_entries(s).push((e.outcome@, e.amount as nat)),
{
    assert(outcome_entries(s.push(e)) =~= outcome_entries(s).push((e.outcome@, e.amount as nat)));
}

proof fn lemma_user_entries_set(s: Seq<UserStake>, i: int, e: UserStake)
    requires
        0 <= i < s.len(),
    ensures
        user_entries(s.update(i, e)) == user_entries(s).update(
            i,
            ((e.account@, e.outcome@), e.amount as nat),
        ),
{
    assert(user_entries(s.update(i, e)) =~= user_entries(s).update(
        i,
        ((e.account@, e.outcome@), e.amount as nat),
    ));
}

proof fn lemma_user_entries_push(s: Seq<UserStake>, e: UserStake)
    ensures
        user_entries(s.push(e)) == user_entries(s).push(((e.account@, e.outcome@), e.amount as nat)),
{
    assert(user_entries(s.push(e)) =~= user_entries(s).push(
        ((e.account@, e.outcome@), e.amount as nat),
    ));
}

/// Where `o` stands in the outcome ledger, if anywhere.
fn find_outcome(s: &Vec<OutcomeStake>, o: &Outcome) -> (r: Option<usize>)
    ensures
        match r {
            Some(i) => i < s@.len() && s@[i as int].outcome@ == o@,
            None => forall|j: int| 0 <= j < s@.len() ==> s@[j].outcome@ != o@,
        },
{
    let mut i: usize = 0;
    while i < s.len()
        invariant
            i <= s@.len(),
            forall|j: int| 0 <= j < i ==> s@[j].outcome@ != o@,
        decreases s@.len() - i,
    {
        if s[i].outcome.eq(o) {
            return Some(i);
        }
        i += 1;
    }
    None
}

/// Where the entry of `a` on `o` stands in the account ledger, if anywhere.
fn find_user(s: &Vec<UserStake>, a: &AccountId, o: &Outcome) -> (r: Option<usize>)
    ensures
        match r {
            Some(i) => i < s@.len() && s@[i as int].account@ == a@ && s@[i as int].outcome@ == o@,
            None => forall|j: int|
                0 <= j < s@.len() ==> (s@[j].account@, s@[j].outcome@) != (a@, o@),
        },
{
    let mut i: usize = 0;
    while i < s.len()
        invariant
            i <= s@.len(),
            forall|j: int| 0 <= j < i ==> (s@[j].account@, s@[j].outcome@) != (a@, o@),
        decreases s@.len() - i,
    {
        if s[i].account.eq(a) && s[i].outcome.eq(o) {
            return Some(i);
        }
        i += 1;
    }
    None
}

/// What the outcome ledger holds for `o`.
fn get_outcome_stake(s: &Vec<OutcomeStake>, o: &Outcome) -> (r: Balance)
    requires
        keys_unique(outcome_entries(s@)),
    ensures
        r == amount_of(outcome_entries(s@), o@),
{
    match find_outcome(s, o) {
        Some(i) => {
            proof {
                lemma_unique_amount(outcome_entries(s@), i as int);
            }
            s[i].amount
        },
        None => {
            proof {
                lemma_absent_amount(outcome_entries(s@), o@);
            }
            0
        },
    }
}

/// Records `v` as what the outcome ledger holds for `o`.
fn set_outcome_stake(s: &mut Vec<OutcomeStake>, o: &Outcome, v: Balance)
    requires
        keys_unique(outcome_entries(old(s)@)),
    ensures
        keys_unique(outcome_entries(final(s)@)),
        forall|k: OutcomeView|
            #[trigger] amount_of(outcome_entries(final(s)@), k) == if k == o@ {
                v as nat
            } else {
                amount_of(outcome_entries(old(s)@), k)
            },
{
    let ghost oe = outcome_entries(s@);
    match find_outcome(s, o) {
        Some(i) => {
            proof {
                lemma_outcome_entries_set(
                    s@,
                    i as int,
                    OutcomeStake { outcome: s@[i as int].outcome, amount: v },
                );
                lemma_set_amount(oe, i as int, v as nat);
            }
            s[i].amount = v;
        },
        None => {
            let entry = OutcomeStake { outcome: o.clone(), amount: v };
            proof {
                lemma_outcome_entries_push(s@, entry);
                lemma_push_amount(oe, o@, v as nat);
            }
            s.push(entry);
        },
    }
}

/// What the account ledger holds for `a` on `o`.
fn get_user_stake(s: &Vec<UserStake>, a: &AccountId, o: &Outcome) -> (r: Balance)
    requires
        keys_unique(user_entries(s@)),
    ensures
        r == amount_of(user_entries(s@), (a@, o@)),
{
    match find_user(s, a, o) {
        Some(i) => {
            proof {
                lemma_unique_amount(user_entries(s@), i as int);
            }
            s[i].amount
        },
        None => {
            proof {
                lemma_absent_amount(user_entries(s@), (a@, o@));
            }
            0
        },
    }
}

/// Records `v` as what the account ledger holds for `a` on `o`.
fn set_user_stake(s: &mut Vec<UserStake>, a: &AccountId, o: &Outcome, v: Balance)
    requires
        keys_unique(user_entries(old(s)@)),
    ensures
        keys_unique(user_entries(final(s)@)),
        forall|k: (Seq<char>, OutcomeView)|
            #[trigger] amount_of(user_entries(final(s)@), k) == if k == (a@, o@) {
                v as nat
            } else {
                amount_of(user_entries(old(s)@), k)
            },
        forall|k: OutcomeView|
            #[trigger] sum_where(user_entries(final(s)@), on_outcome(k)) + (if k == o@ {
                amount_of(user_entries(old(s)@), (a@, o@))
            } else {
                0nat
            }) == sum_where(user_entries(old(s)@), on_outcome(k)) + (if k == o@ {
                v as nat
            } else {
                0nat
            }),
{
    let ghost ue = user_entries(s@);
    let ghost uk = (a@, o@);
    match find_user(s, a, o) {
        Some(i) => {
            let ghost e = s@[i as int];
            proof {
                lemma_user_entries_set(
                    s@,
                    i as int,
                    UserStake { account: e.account, outcome: e.outcome, amount: v },
                );
                lemma_set_amount(ue, i as int, v as nat);
                assert forall|k: OutcomeView| #[trigger]
                    sum_where(ue.update(i as int, (ue[i as int].0, v as nat)), on_outcome(k)) + (if k
                        == o@ {
                        amount_of(ue, uk)
                    } else {
                        0nat
                    }) == sum_where(ue, on_outcome(k)) + (if k == o@ {
                        v as nat
                    } else {
                        0nat
                    }) by {
                    lemma_sum_update(ue, on_outcome(k), i as int, v as nat);
                }
            }
            s[i].amount = v;
        },
        None => {
            let entry = UserStake { account: a.clone(), outcome: o.clone(), amount: v };
            proof {
                lemma_user_entries_push(s@, entry);
                lemma_push_amount(ue, uk, v as nat);
                assert forall|k: OutcomeView| #[trigger]
                    sum_where(ue.push((uk, v as nat)), on_outcome(k)) + (if k == o@ {
                        amount_of(ue, uk)
                    } else {
                        0nat
                    }) == sum_where(ue, on_outcome(k)) + (if k == o@ {
                        v as nat
                    } else {
                        0nat
                    }) by {
                    lemma_sum_push(ue, on_outcome(k), (uk, v as nat));
                }
            }
            s.push(entry);
        },
    }
}

impl ResolutionWindow {
    /// Cumulative stake on outcome `o`.
    pub open spec fn stake_on(&self, o: OutcomeView) -> nat {
        amount_of(outcome_entries(self.outcome_to_stake@), o)
    }

    /// What account `a` has staked on outcome `o`.
    pub open spec fn user_stake_on(&self, a: Seq<char>, o: OutcomeView) -> nat {
        amount_of(user_entries(self.user_to_outcome_to_stake@), (a, o))
    }

    /// What all accounts together still hold on outcome `o`.
    pub open spec fn users_stake_on(&self, o: OutcomeView) -> nat {
        sum_where(user_entries(self.user_to_outcome_to_stake@), on_outcome(o))
    }

    pub open spec fn bonded(&self) -> Option<OutcomeView> {
        opt_view(self.bonded_outcome)
    }

    /// How much a stake on `o` can still add.
    pub open spec fn capacity(&self, o: OutcomeView) -> int {
        if self.bonded_outcome is Some {
            0
        } else {
            self.bond_size - self.stake_on(o)
        }
    }

    /// The fields that no stake, unstake or claim changes.
    pub open spec fn same_round(&self, other: &ResolutionWindow) -> bool {
        &&& self.dr_id == other.dr_id
        &&& self.round == other.round
        &&& self.start_time == other.start_time
        &&& self.end_time == other.end_time
        &&& self.bond_size == other.bond_size
    }

    /// The ledgers are consistent: no outcome holds more than the bond, the
    /// accounts hold no more than their outcome, and an outcome holds the
    /// whole bond exactly when it is the bonded one.
    pub open spec fn wf(&self) -> bool {
        &&& keys_unique(outcome_entries(self.outcome_to_stake@))
        &&& keys_unique(user_entries(self.user_to_outcome_to_stake@))
        &&& forall|o: OutcomeView| #[trigger] self.stake_on(o) <= self.bond_size
        &&& forall|o: OutcomeView| #[trigger] self.users_stake_on(o) <= self.stake_on(o)
        &&& self.bonded_outcome is Some ==> self.stake_on(self.bonded_outcome->0@)
            == self.bond_size
        &&& forall|o: OutcomeView|
            self.bond_size > 0 && #[trigger] self.stake_on(o) == self.bond_size ==> self.bonded()
                == Some(o)
    }

    pub proof fn lemma_user_le(&self, a: Seq<char>, o: OutcomeView)
        requires
            self.wf(),
        ensures
            self.user_stake_on(a, o) <= self.users_stake_on(o),
            self.user_stake_on(a, o) <= self.stake_on(o),
            self.stake_on(o) <= self.bond_size,
    {
        lemma_sum_mono(user_entries(self.user_to_outcome_to_stake@), key_is((a, o)), on_outcome(o));
        assert(self.users_stake_on(o) <= self.stake_on(o));
    }

    /// A window with no stake yet.
    pub fn new(
        dr_id: u64,
        round: u16,
        bond_size: Balance,
        challenge_period: u64,
        start_time: Timestamp,
    ) -> (r: Self)
        requires
            start_time + challenge_period <= u64::MAX,
        ensures
            r.wf(),
            r.dr_id == dr_id,
            r.round == round,
            r.start_time == start_time,
            r.end_time == start_time + challenge_period,
            r.bond_size == bond_size,
            r.bonded_outcome is None,
            forall|o: OutcomeView| #[trigger] r.stake_on(o) == 0,
            forall|a: Seq<char>, o: OutcomeView| #[trigger] r.user_stake_on(a, o) == 0,
            forall|o: OutcomeView| #[trigger] r.users_stake_on(o) == 0,
    {
        let r = ResolutionWindow {
            dr_id,
            round,
            start_time,
            end_time: start_time + challenge_period,
            bond_size,
            outcome_to_stake: Vec::new(),
            user_to_outcome_to_stake: Vec::new(),
            bonded_outcome: None,
        };
        assert(outcome_entries(r.outcome_to_stake@).len() == 0);
        assert(user_entries(r.user_to_outcome_to_stake@).len() == 0);
        r
    }

    /// Stakes `amount` of `sender` on `outcome`, up to what the outcome can
    /// still take before it fills the bond; returns the part that was not
    /// staked. A window that has bonded takes no more stake.
    pub fn stake(&mut self, sender: AccountId, outcome: Outcome, amount: Balance) -> (unspent: Balance)
        requires
            old(self).wf(),
        ensures
            final(self).wf(),
            final(self).same_round(old(self)),
            unspent == if amount > old(self).capacity(outcome@) {
                amount - old(self).capacity(outcome@)
            } else {
                0
            },
            final(self).stake_on(outcome@) == old(self).stake_on(outcome@) + (amount - unspent),
            forall|o: OutcomeView|
                o != outcome@ ==> #[trigger] final(self).stake_on(o) == old(self).stake_on(o),
            final(self).user_stake_on(sender@, outcome@) == old(self).user_stake_on(
                sender@,
                outcome@,
            ) + (amount - unspent),
            forall|a: Seq<char>, o: OutcomeView|
                (a, o) != (sender@, outcome@) ==> #[trigger] final(self).user_stake_on(a, o)
                    == old(self).user_stake_on(a, o),
            forall|o: OutcomeView|
                #[trigger] final(self).users_stake_on(o) == old(self).users_stake_on(o) + if o
                    == outcome@ {
                    (amount - unspent) as nat
                } else {
                    0nat
                },
            final(self).bonded() == if old(self).bonded_outcome is None && final(self).stake_on(
                outcome@,
            ) == old(self).bond_size {
                Some(outcome@)
            } else {
                old(self).bonded()
            },
    {
        let ghost old_self = *self;
        proof {
            old_self.lemma_user_le(sender@, outcome@);
        }
        let stake_on_outcome = get_outcome_stake(&self.outcome_to_stake, &outcome);
        let user_stake_on_outcome = get_user_stake(&self.user_to_outcome_to_stake, &sender, &outcome);
        let stake_open: Balance = if self.bonded_outcome.is_some() {
            0
        } else {
            self.bond_size - stake_on_outcome
        };
        let unspent: Balance = if amount > stake_open {
            amount - stake_open
        } else {
            0
        };
        let staked: Balance = amount - unspent;
        let new_stake_on_outcome: Balance = stake_on_outcome + staked;
        set_outcome_stake(&mut self.outcome_to_stake, &outcome, new_stake_on_outcome);
        let new_user_stake: Balance = user_stake_on_outcome + staked;
        set_user_stake(&mut self.user_to_outcome_to_stake, &sender, &outcome, new_user_stake);
        if new_stake_on_outcome == self.bond_size && self.bonded_outcome.is_none() {
            self.bonded_outcome = Some(outcome);
        }
        proof {
            assert forall|o: OutcomeView| #[trigger] self.users_stake_on(o) <= self.stake_on(o) by {
                assert(old_self.users_stake_on(o) <= old_self.stake_on(o));
            }
            assert forall|o: OutcomeView|
                self.bond_size > 0 && #[trigger] self.stake_on(o) == self.bond_size implies self.bonded()
                    == Some(o) by {
                if o != outcome@ {
                    assert(old_self.stake_on(o) == old_self.bond_size);
                }
            }
            assert(keys_unique(outcome_entries(self.outcome_to_stake@)));
            assert(keys_unique(user_entries(self.user_to_outcome_to_stake@)));
            assert(new_stake_on_outcome <= self.bond_size);
            assert forall|o: OutcomeView| #[trigger] self.stake_on(o) <= self.bond_size by {
                if o != outcome@ {
                    assert(old_self.stake_on(o) <= old_self.bond_size);
                }
            }
            if self.bonded_outcome is Some {
                if old_self.bonded_outcome is Some {
                    assert(self.stake_on(self.bonded_outcome->0@) == old_self.stake_on(
                        old_self.bonded_outcome->0@,
                    ));
                }
            }
        }
        unspent
    }

    /// Cumulative stake on `outcome`.
    pub fn outcome_stake(&self, outcome: &Outcome) -> (r: Balance)
        requires
            self.wf(),
        ensures
            r == self.stake_on(outcome@),
    {
        get_outcome_stake(&self.outcome_to_stake, outcome)
    }

    /// What `account` has staked on `outcome`.
    pub fn user_stake(&self, account: &AccountId, outcome: &Outcome) -> (r: Balance)
        requires
            self.wf(),
        ensures
            r == self.user_stake_on(account@, outcome@),
    {
        get_user_stake(&self.user_to_outcome_to_stake, account, outcome)
    }

    /// Whether `sender` may take `amount` of its stake on `outcome` out of the
    /// window: not from the bonded outcome, and not more than it holds there.
    pub fn check_unstake(&self, sender: &AccountId, outcome: &Outcome, amount: Balance) -> (r: Result<(), OracleError>)
        requires
            self.wf(),
        ensures
            self.bonded() == Some(outcome@) ==> r == Err::<(), OracleError>(OracleError::BondedOutcome),
            self.bonded() != Some(outcome@) && self.user_stake_on(sender@, outcome@) < amount
                ==> r == Err::<(), OracleError>(OracleError::InsufficientStake),
            self.bonded() != Some(outcome@) && self.user_stake_on(sender@, outcome@) >= amount
                ==> r is Ok,
    {
        let is_bonded = match &self.bonded_outcome {
            Some(b) => b.eq(outcome),
            None => false,
        };
        if is_bonded {
            return Err(OracleError::BondedOutcome);
        }
        let user_stake_on_outcome = get_user_stake(&self.user_to_outcome_to_stake, sender, outcome);
        if user_stake_on_outcome < amount {
            return Err(OracleError::InsufficientStake);
        }
        Ok(())
    }

    /// Takes `amount` of `sender`'s stake on `outcome` out of the window and
    /// returns it. Refused on the bonded outcome, and beyond what `sender`
    /// holds there.
    pub fn unstake(&mut self, sender: AccountId, outcome: Outcome, amount: Balance) -> (r: Result<
        Balance,
        OracleError,
    >)
        requires
            old(self).wf(),
        ensures
            final(self).wf(),
            final(self).same_round(old(self)),
            final(self).bonded() == old(self).bonded(),
            old(self).bonded() == Some(outcome@) ==> r == Err::<Balance, OracleError>(
                OracleError::BondedOutcome,
            ),
            old(self).bonded() != Some(outcome@) && old(self).user_stake_on(sender@, outcome@)
                < amount ==> r == Err::<Balance, OracleError>(OracleError::InsufficientStake),
            old(self).bonded() != Some(outcome@) && old(self).user_stake_on(sender@, outcome@)
                >= amount ==> r == Ok::<Balance, OracleError>(amount),
            r is Err ==> *final(self) == *old(self),
            r is Ok ==> {
                &&& final(self).stake_on(outcome@) == old(self).stake_on(outcome@) - amount
                &&& final(self).user_stake_on(sender@, outcome@) == old(self).user_stake_on(
                    sender@,
                    outcome@,
                ) - amount
            },
            forall|o: OutcomeView|
                o != outcome@ ==> #[trigger] final(self).stake_on(o) == old(self).stake_on(o),
            forall|a: Seq<char>, o: OutcomeView|
                (a, o) != (sender@, outcome@) ==> #[trigger] final(self).user_stake_on(a, o)
                    == old(self).user_stake_on(a, o),
    {
        let ghost old_self = *self;
        let is_bonded = match &self.bonded_outcome {
            Some(b) => b.eq(&outcome),
            None => false,
        };
        if is_bonded {
            return Err(OracleError::BondedOutcome);
        }
        proof {
            old_self.lemma_user_le(sender@, outcome@);
        }
        let user_stake_on_outcome = get_user_stake(&self.user_to_outcome_to_stake, &sender, &outcome);
        if user_stake_on_outcome < amount {
            return Err(OracleError::InsufficientStake);
        }
        let stake_on_outcome = get_outcome_stake(&self.outcome_to_stake, &outcome);
        set_outcome_stake(&mut self.outcome_to_stake, &outcome, stake_on_outcome - amount);
        set_user_stake(&mut self.user_to_outcome_to_stake, &sender, &outcome, user_stake_on_outcome - amount);
        proof {
            assert forall|o: OutcomeView| #[trigger] self.users_stake_on(o) <= self.stake_on(o) by {
                assert(old_self.users_stake_on(o) <= old_self.stake_on(o));
            }
            assert forall|o: OutcomeView| #[trigger] self.stake_on(o) <= self.bond_size by {
                assert(old_self.stake_on(o) <= old_self.bond_size);
            }
            assert forall|o: OutcomeView|
                self.bond_size > 0 && #[trigger] self.stake_on(o) == self.bond_size implies self.bonded()
                    == Some(o) by {
                assert(old_self.stake_on(o) <= old_self.bond_size);
            }
            if self.bonded_outcome is Some {
                assert(self.stake_on(self.bonded_outcome->0@) == old_self.stake_on(
                    old_self.bonded_outcome->0@,
                ));
            }
        }
        Ok(amount)
    }

    /// What this window contributes to the payout of `account_id` once the
    /// request has settled on `final_outcome`. A window that bonded the final
    /// outcome hands out the account's stake on it, once: the stake is
    /// cleared.
    pub fn claim_for(&mut self, account_id: AccountId, final_outcome: &Outcome) -> (r:
        WindowStakeResult)
        requires
            old(self).wf(),
        ensures
            final(self).wf(),
            final(self).same_round(old(self)),
            final(self).bonded() == old(self).bonded(),
            final(self).outcome_to_stake == old(self).outcome_to_stake,
            old(self).bonded() is None ==> r is NoResult,
            old(self).bonded() is Some && old(self).bonded() != Some(final_outcome@) ==> r
                == WindowStakeResult::Incorrect(old(self).bond_size),
            old(self).bonded() == Some(final_outcome@) ==> {
                &&& r is Correct
                &&& r->Correct_0.bonded_stake == old(self).bond_size
                &&& r->Correct_0.user_stake == old(self).user_stake_on(account_id@, final_outcome@)
                &&& final(self).user_stake_on(account_id@, final_outcome@) == 0
            },
            forall|a: Seq<char>, o: OutcomeView|
                (a, o) != (account_id@, final_outcome@) ==> #[trigger] final(self).user_stake_on(
                    a,
                    o,
                ) == old(self).user_stake_on(a, o),
            old(self).bonded() != Some(final_outcome@) ==> *final(self) == *old(self),
    {
        let ghost old_self = *self;
        let is_correct = match &self.bonded_outcome {
            Some(b) => b.eq(final_outcome),
            None => {
                return WindowStakeResult::NoResult;
            },
        };
        if !is_correct {
            return WindowStakeResult::Incorrect(self.bond_size);
        }
        let user_stake = get_user_stake(&self.user_to_outcome_to_stake, &account_id, final_outcome);
        set_user_stake(&mut self.user_to_outcome_to_stake, &account_id, final_outcome, 0);
        proof {
            assert forall|o: OutcomeView| #[trigger] self.users_stake_on(o) <= self.stake_on(o) by {
                assert(old_self.users_stake_on(o) <= old_self.stake_on(o));
            }
            assert forall|o: OutcomeView| #[trigger] self.stake_on(o) <= self.bond_size by {
                assert(old_self.stake_on(o) <= old_self.bond_size);
            }
            assert forall|o: OutcomeView|
                self.bond_size > 0 && #[trigger] self.stake_on(o) == self.bond_size implies self.bonded()
                    == Some(o) by {
                assert(old_self.stake_on(o) == self.stake_on(o));
            }
        }
        WindowStakeResult::Correct(CorrectStake { bonded_stake: self.bond_size, user_stake })
    }
}

/// No outcome ever holds more than the bond of its window; a stake beyond
/// what fills the bond is handed back, never applied.
pub proof fn lemma_capacity_cap(w: &ResolutionWindow, o: OutcomeView)
    requires
        w.wf(),
    ensures
        w.stake_on(o) <= w.bond_size,
{
}

/// At most one outcome of a window reaches its bond, and that outcome is the
/// bonded one.
pub proof fn lemma_exactly_one_bonding(w: &ResolutionWindow, o1: OutcomeView, o2: OutcomeView)
    requires
        w.wf(),
        w.bond_size > 0,
        w.stake_on(o1) == w.bond_size,
        w.stake_on(o2) == w.bond_size,
    ensures
        o1 == o2,
        w.bonded() == Some(o1),
{
}

/// The stake on `o` in window `w`, as a function of the account.
pub open spec fn user_stake_fn(w: ResolutionWindow, o: OutcomeView) -> spec_fn(Seq<char>) -> int {
    |a: Seq<char>| w.user_stake_on(a, o) as int
}

/// Selects the account entries on `o` of the accounts outside `accts`.
pub open spec fn rest_on(o: OutcomeView, accts: Seq<Seq<char>>) -> spec_fn(
    (Seq<char>, OutcomeView),
) -> bool {
    |k: (Seq<char>, OutcomeView)| k.1 == o && !accts.contains(k.0)
}

proof fn lemma_accounts_rest(w: ResolutionWindow, accts: Seq<Seq<char>>, o: OutcomeView)
    requires
        accts.no_duplicates(),
    ensures
        sum_over(accts, user_stake_fn(w, o)) + sum_where(
            user_entries(w.user_to_outcome_to_stake@),
            rest_on(o, accts),
        ) == w.users_stake_on(o),
    decreases accts.len(),
{
    let ue = user_entries(w.user_to_outcome_to_stake@);
    if accts.len() == 0 {
        lemma_sum_ext(ue, rest_on(o, accts), on_outcome(o));
    } else {
        let pre = accts.drop_last();
        let a = accts.last();
        assert(pre.no_duplicates()) by {
            assert forall|i: int, j: int| 0 <= i < pre.len() && 0 <= j < pre.len() && i != j implies pre[i] != pre[j] by {
                assert(pre[i] == accts[i] && pre[j] == accts[j]);
            }
        }
        assert(!pre.contains(a)) by {
            if pre.contains(a) {
                let i = choose|i: int| 0 <= i < pre.len() && pre[i] == a;
                assert(accts[i] == accts[accts.len() - 1]);
            }
        }
        lemma_accounts_rest(w, pre, o);
        assert forall|k: (Seq<char>, OutcomeView)| #[trigger] rest_on(o, pre)(k) == (key_is((a, o))(k) || rest_on(o, accts)(k)) by {
            if k.0 != a && pre.contains(k.0) {
                let i = choose|i: int| 0 <= i < pre.len() && pre[i] == k.0;
                assert(accts[i] == k.0);
            }
            if accts.contains(k.0) && k.0 != a {
                let i = choose|i: int| 0 <= i < accts.len() && accts[i] == k.0;
                assert(i != accts.len() - 1);
                assert(pre[i] == k.0);
            }
            assert(accts[accts.len() - 1] == a);
        }
        assert forall|k: (Seq<char>, OutcomeView)| !(#[trigger] key_is((a, o))(k) && rest_on(o, accts)(k)) by {
            assert(accts[accts.len() - 1] == a);
        }
        lemma_sum_partition(ue, rest_on(o, pre), key_is((a, o)), rest_on(o, accts));
    }
}

/// What distinct accounts hold on an outcome of a window adds up to no more
/// than the window's bond.
pub proof fn lemma_accounts_stake_le(w: ResolutionWindow, accts: Seq<Seq<char>>, o: OutcomeView)
    requires
        w.wf(),
        accts.no_duplicates(),
    ensures
        sum_over(accts, user_stake_fn(w, o)) <= w.bond_size,
        sum_over(accts, user_stake_fn(w, o)) >= 0,
{
    lemma_accounts_rest(w, accts, o);
    crate::ledger::lemma_sum_over_nonneg(accts, user_stake_fn(w, o));
    assert(w.users_stake_on(o) <= w.stake_on(o));
    assert(w.stake_on(o) <= w.bond_size);
}

} // verus!
