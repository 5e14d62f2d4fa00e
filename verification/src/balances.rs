//! The balances of all accounts: a map from account identifier to amount,
//! kept as a list in which no account stands twice and no amount is zero.

use vstd::prelude::*;
use crate::account::AccountId;
use crate::state::{balance_in, with_balance};

verus! {

/// What one account holds.
#[derive(Debug)]
struct Holding {
    account: AccountId,
    amount: u64,
}

/// The balances of all accounts that hold anything. An account without an
/// entry has a balance of zero.
#[derive(Debug)]
pub struct Balances {
    holdings: Vec<Holding>,
}

/// Whether `holdings` keeps the balance of `account` at position `i`.
spec fn held_at(holdings: Seq<Holding>, i: int, account: Seq<u8>) -> bool {
    0 <= i < holdings.len() && holdings[i].account@ == account
}

/// A position at which `holdings` keeps the balance of `account`.
spec fn position_of(holdings: Seq<Holding>, account: Seq<u8>) -> int {
    choose|i: int| held_at(holdings, i, account)
}

/// The map that `holdings` stands for.
spec fn recorded(holdings: Seq<Holding>) -> Map<Seq<u8>, u64> {
    Map::new(
        |account: Seq<u8>| exists|i: int| held_at(holdings, i, account),
        |account: Seq<u8>| holdings[position_of(holdings, account)].amount,
    )
}

/// No account stands twice in `holdings`.
spec fn distinct(holdings: Seq<Holding>) -> bool {
    forall|i: int, j: int|
        0 <= i < j < holdings.len() ==> holdings[i].account@ != holdings[j].account@
}

/// No amount in `holdings` is zero.
spec fn positive(holdings: Seq<Holding>) -> bool {
    forall|i: int| 0 <= i < holdings.len() ==> holdings[i].amount > 0
}

/// `holdings` stands for `m` when every entry of the list is one of `m`
/// and every key of `m` has an entry in the list.
proof fn lemma_recorded_is(holdings: Seq<Holding>, m: Map<Seq<u8>, u64>)
    requires
        distinct(holdings),
        forall|i: int|
            0 <= i < holdings.len() ==> m.dom().contains(#[trigger] holdings[i].account@)
                && m[holdings[i].account@] == holdings[i].amount,
        forall|account: Seq<u8>|
            m.dom().contains(account) ==> exists|i: int| held_at(holdings, i, account),
    ensures
        recorded(holdings) == m,
{
    assert forall|account: Seq<u8>| recorded(holdings).dom().contains(account) implies m.dom().contains(
        account,
    ) && m[account] == recorded(holdings)[account] by {
        let i = position_of(holdings, account);
        assert(held_at(holdings, i, account));
    }
    assert(recorded(holdings) =~= m);
}

/// What `recorded` holds at each position of a list without repetitions.
proof fn lemma_recorded_at(holdings: Seq<Holding>, i: int)
    requires
        distinct(holdings),
        0 <= i < holdings.len(),
    ensures
        recorded(holdings).dom().contains(holdings[i].account@),
        recorded(holdings)[holdings[i].account@] == holdings[i].amount,
{
    let account = holdings[i].account@;
    assert(held_at(holdings, i, account));
    let j = position_of(holdings, account);
    assert(held_at(holdings, j, account));
    assert(i == j);
}

/// The map that a list stands for has finitely many keys.
proof fn lemma_recorded_finite(holdings: Seq<Holding>)
    ensures
        recorded(holdings).dom().finite(),
    decreases holdings.len(),
{
    if holdings.len() == 0 {
        assert(recorded(holdings).dom() =~= Set::<Seq<u8>>::empty());
    } else {
        let front = holdings.drop_last();
        lemma_recorded_finite(front);
        assert forall|account: Seq<u8>|
            recorded(holdings).dom().contains(account) implies recorded(front).dom().insert(
            holdings.last().account@,
        ).contains(account) by {
            let i = position_of(holdings, account);
            assert(held_at(holdings, i, account));
            if i < front.len() {
                assert(held_at(front, i, account));
            }
        }
        assert forall|account: Seq<u8>|
            recorded(front).dom().insert(holdings.last().account@).contains(
                account,
            ) implies recorded(holdings).dom().contains(account) by {
            if account == holdings.last().account@ {
                assert(held_at(holdings, holdings.len() - 1, account));
            } else {
                let i = position_of(front, account);
                assert(held_at(front, i, account));
                assert(held_at(holdings, i, account));
            }
        }
        assert(recorded(holdings).dom() =~= recorded(front).dom().insert(
            holdings.last().account@,
        ));
    }
}

impl View for Balances {
    type V = Map<Seq<u8>, u64>;

    closed spec fn view(&self) -> Map<Seq<u8>, u64> {
        recorded(self.holdings@)
    }
}

impl Balances {
    /// The invariant of the list: no account twice, no amount of zero.
    pub closed spec fn wf(&self) -> bool {
        &&& distinct(self.holdings@)
        &&& positive(self.holdings@)
    }

    /// A well-formed list stands for a map with finitely many keys and
    /// without an amount of zero.
    pub proof fn lemma_view_is_canonical(&self)
        requires
            self.wf(),
        ensures
            self@.dom().finite(),
            forall|account: Seq<u8>| self@.dom().contains(account) ==> #[trigger] self@[account] > 0,
    {
        lemma_recorded_finite(self.holdings@);
        assert forall|account: Seq<u8>| self@.dom().contains(account) implies #[trigger] self@[account]
            > 0 by {
            let i = position_of(self.holdings@, account);
            assert(held_at(self.holdings@, i, account));
        }
    }

    /// Balances in which nobody holds anything.
    pub fn new() -> (balances: Balances)
        ensures
            balances.wf(),
            balances@ == Map::<Seq<u8>, u64>::empty(),
    {
        let balances = Balances { holdings: Vec::new() };
        proof {
            lemma_recorded_is(balances.holdings@, Map::empty());
        }
        balances
    }

    /// Where the list keeps the balance of `account`, if it keeps one.
    fn position(&self, account: &AccountId) -> (found: Option<usize>)
        requires
            self.wf(),
        ensures
            match found {
                Some(i) => held_at(self.holdings@, i as int, account@),
                None => !self@.dom().contains(account@),
            },
    {
        let mut i: usize = 0;
        while i < self.holdings.len()
            invariant
                i <= self.holdings.len(),
                forall|j: int| 0 <= j < i ==> self.holdings[j].account@ != account@,
            decreases self.holdings.len() - i,
        {
            if self.holdings[i].account == *account {
                return Some(i);
            }
            i += 1;
        }
        None
    }

    /// The balance of `account`: zero where it has no entry.
    pub fn balance_of(&self, account: &AccountId) -> (amount: u64)
        requires
            self.wf(),
        ensures
            amount == balance_in(self@, account@),
    {
        match self.position(account) {
            Some(i) => {
                proof {
                    lemma_recorded_at(self.holdings@, i as int);
                }
                self.holdings[i].amount
            },
            None => 0,
        }
    }

    /// Sets the balance of `account` to `amount`. An amount of zero takes
    /// the account's entry out; no other account's balance changes.
    pub fn set_balance(&mut self, account: &AccountId, amount: u64)
        requires
            old(self).wf(),
        ensures
            final(self).wf(),
            final(self)@ == with_balance(old(self)@, account@, amount),
    {
        let ghost before = self.holdings@;
        let ghost target = with_balance(self@, account@, amount);
        match self.position(account) {
            Some(i) => {
                if amount == 0 {
                    self.holdings.swap_remove(i);
                    proof {
                        let after = self.holdings@;
                        let last = before.len() - 1;
                        assert forall|k: int| 0 <= k < after.len() implies target.dom().contains(
                            #[trigger] after[k].account@,
                        ) && target[after[k].account@] == after[k].amount by {
                            lemma_recorded_at(before, if k == i { last } else { k });
                        }
                        assert forall|a: Seq<u8>| target.dom().contains(a) implies exists|k: int|
                            held_at(after, k, a) by {
                            let j = position_of(before, a);
                            assert(held_at(before, j, a));
                            assert(held_at(after, if j == last { i as int } else { j }, a));
                        }
                        lemma_recorded_is(after, target);
                    }
                } else {
                    self.holdings[i].amount = amount;
                    proof {
                        let after = self.holdings@;
                        assert forall|k: int| 0 <= k < after.len() implies target.dom().contains(
                            #[trigger] after[k].account@,
                        ) && target[after[k].account@] == after[k].amount by {
                            lemma_recorded_at(before, k);
                        }
                        assert forall|a: Seq<u8>| target.dom().contains(a) implies exists|k: int|
                            held_at(after, k, a) by {
                            if a == account@ {
                                assert(held_at(after, i as int, a));
                            } else {
                                let j = position_of(before, a);
                                assert(held_at(before, j, a));
                                assert(held_at(after, j, a));
                            }
                        }
                        lemma_recorded_is(after, target);
                    }
                }
            },
            None => {
                if amount != 0 {
                    self.holdings.push(Holding { account: account.clone(), amount });
                    proof {
                        let after = self.holdings@;
                        assert forall|k: int| 0 <= k < before.len() implies before[k].account@
                            != account@ by {
                            assert(!held_at(before, k, account@));
                        }
                        assert forall|k: int| 0 <= k < after.len() implies target.dom().contains(
                            #[trigger] after[k].account@,
                        ) && target[after[k].account@] == after[k].amount by {
                            if k < before.len() {
                                lemma_recorded_at(before, k);
                            }
                        }
                        assert forall|a: Seq<u8>| target.dom().contains(a) implies exists|k: int|
                            held_at(after, k, a) by {
                            if a == account@ {
                                assert(held_at(after, before.len() as int, a));
                            } else {
                                let j = position_of(before, a);
                                assert(held_at(before, j, a));
                                assert(held_at(after, j, a));
                            }
                        }
                        lemma_recorded_is(after, target);
                    }
                } else {
                    assert(target =~= self@);
                }
            },
        }
    }
}

} // verus!
