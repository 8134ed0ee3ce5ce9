//! A fungible-token ledger: the balance of each account, with deposits,
//! withdrawals and transfers. It holds the stakes and bonds in custody.
use crate::error::OracleError;
use crate::ledger::{amount_of, keys_unique, lemma_absent_amount, lemma_push_amount, lemma_set_amount, lemma_unique_amount};
use crate::types::{AccountId, Balance};
use vstd::prelude::*;

verus! {

/// What the account that creates a token starts with.
pub const DEFAULT_BALANCE: u128 = 10000000000000000000000000000;

pub struct TokenBalance {
    pub account: AccountId,
    pub amount: Balance,
}

pub struct Token {
    pub balances: Vec<TokenBalance>,
}

/// The balances as keys and amounts.
pub open spec fn balance_entries(s: Seq<TokenBalance>) -> Seq<(Seq<char>, nat)> {
    s.map_values(|e: TokenBalance| (e.account@, e.amount as nat))
}

fn find_account(s: &Vec<TokenBalance>, a: &AccountId) -> (r: Option<usize>)
    ensures
        match r {
            Some(i) => i < s@.len() && s@[i as int].account@ == a@,
            None => forall|j: int| 0 <= j < s@.len() ==> s@[j].account@ != a@,
        },
{
    let mut i: usize = 0;
    while i < s.len()
        invariant
            i <= s@.len(),
            forall|j: int| 0 <= j < i ==> s@[j].account@ != a@,
        decreases s@.len() - i,
    {
        if s[i].account.eq(a) {
            return Some(i);
        }
        i += 1;
    }
    None
}

impl Token {
    /// The balance of account `a`.
    pub open spec fn balance_of(&self, a: Seq<char>) -> nat {
        amount_of(balance_entries(self.balances@), a)
    }

    pub open spec fn wf(&self) -> bool {
        keys_unique(balance_entries(self.balances@))
    }

    /// A token whose creator `owner` holds `DEFAULT_BALANCE`.
    pub fn default_new(owner: AccountId) -> (r: Self)
        ensures
            r.wf(),
            r.balance_of(owner@) == DEFAULT_BALANCE,
            forall|a: Seq<char>| a != owner@ ==> #[trigger] r.balance_of(a) == 0,
    {
        let mut t = Token { balances: Vec::new() };
        assert(balance_entries(t.balances@).len() == 0);
        t.set_balance(&owner, DEFAULT_BALANCE);
        t
    }

    fn set_balance(&mut self, a: &AccountId, v: Balance)
        requires
            old(self).wf(),
        ensures
            final(self).wf(),
            forall|k: Seq<char>|
                #[trigger] final(self).balance_of(k) == if k == a@ {
                    v as nat
                } else {
                    old(self).balance_of(k)
                },
    {
        let ghost be = balance_entries(self.balances@);
        match find_account(&self.balances, a) {
            Some(i) => {
                proof {
                    let e = TokenBalance { account: self.balances@[i as int].account, amount: v };
                    assert(balance_entries(self.balances@.update(i as int, e)) =~= be.update(
                        i as int,
                        (be[i as int].0, v as nat),
                    ));
                    lemma_set_amount(be, i as int, v as nat);
                }
                self.balances[i].amount = v;
            },
            None => {
                let e = TokenBalance { account: a.clone(), amount: v };
                proof {
                    assert(balance_entries(self.balances@.push(e)) =~= be.push((a@, v as nat)));
                    lemma_push_amount(be, a@, v as nat);
                }
                self.balances.push(e);
            },
        }
    }

    /// The balance of `owner_id`, zero for an account never credited.
    pub fn get_balance_expect(&self, owner_id: &AccountId) -> (r: Balance)
        requires
            self.wf(),
        ensures
            r == self.balance_of(owner_id@),
    {
        match find_account(&self.balances, owner_id) {
            Some(i) => {
                proof {
                    lemma_unique_amount(balance_entries(self.balances@), i as int);
                }
                self.balances[i].amount
            },
            None => {
                proof {
                    lemma_absent_amount(balance_entries(self.balances@), owner_id@);
                }
                0
            },
        }
    }

    /// Credits `amount` to `receiver`.
    pub fn deposit(&mut self, receiver: &AccountId, amount: Balance) -> (r: Result<(), OracleError>)
        requires
            old(self).wf(),
        ensures
            final(self).wf(),
            old(self).balance_of(receiver@) + amount > u128::MAX ==> r == Err::<(), OracleError>(
                OracleError::BalanceOverflow,
            ) && final(self).balances@ == old(self).balances@,
            old(self).balance_of(receiver@) + amount <= u128::MAX ==> r is Ok
                && final(self).balance_of(receiver@) == old(self).balance_of(receiver@) + amount,
            forall|a: Seq<char>| a != receiver@ ==> #[trigger] final(self).balance_of(a) == old(self).balance_of(a),
    {
        let bal = self.get_balance_expect(receiver);
        if bal > u128::MAX - amount {
            return Err(OracleError::BalanceOverflow);
        }
        self.set_balance(receiver, bal + amount);
        Ok(())
    }

    /// Debits `amount` from `sender`.
    pub fn withdraw(&mut self, sender: &AccountId, amount: Balance) -> (r: Result<(), OracleError>)
        requires
            old(self).wf(),
        ensures
            final(self).wf(),
            old(self).balance_of(sender@) < amount ==> r == Err::<(), OracleError>(
                OracleError::InsufficientBalance,
            ) && final(self).balances@ == old(self).balances@,
            old(self).balance_of(sender@) >= amount ==> r is Ok
                && final(self).balance_of(sender@) == old(self).balance_of(sender@) - amount,
            forall|a: Seq<char>| a != sender@ ==> #[trigger] final(self).balance_of(a) == old(self).balance_of(a),
    {
        let bal = self.get_balance_expect(sender);
        if bal < amount {
            return Err(OracleError::InsufficientBalance);
        }
        self.set_balance(sender, bal - amount);
        Ok(())
    }

    /// Moves `amount` from `owner_id` to `new_owner_id`; all or nothing.
    pub fn internal_transfer(&mut self, owner_id: &AccountId, new_owner_id: &AccountId, amount: Balance) -> (r: Result<(), OracleError>)
        requires
            old(self).wf(),
        ensures
            final(self).wf(),
            old(self).balance_of(owner_id@) < amount ==> r == Err::<(), OracleError>(
                OracleError::InsufficientBalance,
            ),
            r is Err ==> final(self).balances@ == old(self).balances@,
            r is Ok ==> old(self).balance_of(owner_id@) >= amount,
            r is Ok && owner_id@ != new_owner_id@ ==> {
                &&& final(self).balance_of(owner_id@) == old(self).balance_of(owner_id@) - amount
                &&& final(self).balance_of(new_owner_id@) == old(self).balance_of(new_owner_id@) + amount
            },
            r is Ok && owner_id@ == new_owner_id@ ==> final(self).balance_of(owner_id@) == old(self).balance_of(owner_id@),
            old(self).balance_of(owner_id@) >= amount && (owner_id@ == new_owner_id@
                || old(self).balance_of(new_owner_id@) + amount <= u128::MAX) ==> r is Ok,
            forall|a: Seq<char>| a != owner_id@ && a != new_owner_id@ ==> #[trigger] final(self).balance_of(a) == old(self).balance_of(a),
    {
        let from_bal = self.get_balance_expect(owner_id);
        if from_bal < amount {
            return Err(OracleError::InsufficientBalance);
        }
        if owner_id.eq(new_owner_id) {
            return Ok(());
        }
        let to_bal = self.get_balance_expect(new_owner_id);
        if to_bal > u128::MAX - amount {
            return Err(OracleError::BalanceOverflow);
        }
        self.set_balance(owner_id, from_bal - amount);
        self.set_balance(new_owner_id, to_bal + amount);
        Ok(())
    }
}

} // verus!
