//! The ledger itself: balances, total supply, owner and the token's
//! descriptive fields, with the calls that read and change them.

use vstd::prelude::*;
use crate::account::AccountId;
use crate::balances::Balances;
use crate::state::{
    LedgerState, INITIAL_SUPPLY, lemma_balance_fits, lemma_init_seeds_owner,
    lemma_mint_keeps_valid, lemma_transfer_keeps_valid, lemma_two_balances_fit,
    lemma_zero_transfer_changes_nothing,
};
use crate::sums::sum_of;

verus! {

/// The number of decimal places in which amounts are meant to be shown.
pub const DECIMALS: u8 = 8;

/// The token's name.
pub open spec fn token_name() -> Seq<char> {
    "ICP Test Token"@
}

/// The token's symbol.
pub open spec fn token_symbol() -> Seq<char> {
    "ICPT"@
}

/// A fungible-token ledger. It is made once, uninitialized, and
/// initialized once by the account that then owns it. Every call that
/// acts for somebody takes that caller's identity as an argument.
#[derive(Debug)]
pub struct TokenWallet {
    owner: AccountId,
    initialized: bool,
    balances: Balances,
    token_symbol: String,
    token_name: String,
    decimals: u8,
    total_supply: u64,
}

impl View for TokenWallet {
    type V = LedgerState;

    closed spec fn view(&self) -> LedgerState {
        LedgerState {
            initialized: self.initialized,
            owner: self.owner@,
            balances: self.balances@,
            total_supply: self.total_supply,
        }
    }
}

impl TokenWallet {
    /// The invariant of the ledger: the total supply is the sum of the
    /// balances, before initialization nothing is held, and the
    /// descriptive fields are the ones the ledger was made with.
    pub closed spec fn wf(&self) -> bool {
        &&& self.balances.wf()
        &&& self.total_supply == sum_of(self.balances@)
        &&& !self.initialized ==> self@ == LedgerState::uninitialized()
        &&& self.token_name@ == token_name()
        &&& self.token_symbol@ == token_symbol()
        &&& self.decimals == DECIMALS
    }

    /// A well-formed ledger is in a valid state: above all, its total
    /// supply is the sum of its balances.
    pub proof fn lemma_wf_is_valid(&self)
        requires
            self.wf(),
        ensures
            self@.valid(),
            self@.total_supply == sum_of(self@.balances),
    {
        self.balances.lemma_view_is_canonical();
    }

    /// A ledger that is not initialized yet: nobody holds anything, and
    /// nobody can mint.
    pub fn new() -> (wallet: TokenWallet)
        ensures
            wallet.wf(),
            wallet@ == LedgerState::uninitialized(),
    {
        TokenWallet {
            owner: AccountId::anonymous(),
            initialized: false,
            balances: Balances::new(),
            token_symbol: "ICPT".to_owned(),
            token_name: "ICP Test Token".to_owned(),
            decimals: DECIMALS,
            total_supply: 0,
        }
    }

    /// Initializes the ledger for `caller`, who becomes its owner and
    /// receives the initial supply. Returns whether it did: a ledger that
    /// is initialized already is left as it is.
    pub fn init(&mut self, caller: AccountId) -> (done: bool)
        requires
            old(self).wf(),
        ensures
            final(self).wf(),
            done == !old(self)@.initialized,
            final(self)@ == old(self)@.init(caller@),
            final(self)@.total_supply == sum_of(final(self)@.balances),
    {
        if self.initialized {
            proof {
                self.lemma_wf_is_valid();
            }
            return false;
        }
        proof {
            lemma_init_seeds_owner(caller@);
        }
        self.balances.set_balance(&caller, INITIAL_SUPPLY);
        self.owner = caller;
        self.total_supply = INITIAL_SUPPLY;
        self.initialized = true;
        true
    }

    /// Whether the ledger has been initialized.
    pub fn is_initialized(&self) -> (initialized: bool)
        ensures
            initialized == self@.initialized,
    {
        self.initialized
    }

    /// The account that may mint.
    pub fn owner(&self) -> (owner: &AccountId)
        ensures
            owner@ == self@.owner,
    {
        &self.owner
    }

    /// The total of all balances.
    pub fn total_supply(&self) -> (supply: u64)
        ensures
            supply == self@.total_supply,
    {
        self.total_supply
    }

    /// The balance of `account`: zero for an account that holds nothing,
    /// whether or not it ever did.
    pub fn balance_of(&self, account: &AccountId) -> (amount: u64)
        requires
            self.wf(),
        ensures
            amount == self@.balance_of(account@),
    {
        self.balances.balance_of(account)
    }

    /// Moves `amount` from `caller` to `to`, and returns whether it did.
    /// The transfer is declined, and nothing changes, exactly when
    /// `caller` holds less than `amount`. The recipient's balance cannot
    /// overflow: with the sender's it is no more than the total supply.
    pub fn transfer(&mut self, caller: &AccountId, to: &AccountId, amount: u64) -> (accepted: bool)
        requires
            old(self).wf(),
        ensures
            final(self).wf(),
            accepted == old(self)@.transfer_accepted(caller@, amount),
            final(self)@ == old(self)@.transfer(caller@, to@, amount),
            final(self)@.total_supply == sum_of(final(self)@.balances),
            amount > old(self)@.balance_of(caller@) ==> !accepted && final(self)@ == old(self)@,
            amount == 0 ==> accepted && final(self)@ == old(self)@,
            caller@ == to@ && amount <= old(self)@.balance_of(caller@) ==> accepted && final(self)@
                == old(self)@,
    {
        proof {
            self.lemma_wf_is_valid();
        }
        let sender_balance = self.balances.balance_of(caller);
        if sender_balance < amount {
            return false;
        }
        proof {
            lemma_transfer_keeps_valid(self@, caller@, to@, amount);
            lemma_zero_transfer_changes_nothing(self@, caller@, to@);
            if caller@ != to@ {
                lemma_two_balances_fit(self@, caller@, to@);
            }
        }
        self.balances.set_balance(caller, sender_balance - amount);
        let recipient_balance = self.balances.balance_of(to);
        self.balances.set_balance(to, recipient_balance + amount);
        proof {
            if caller@ == to@ {
                assert(self.balances@ =~= old(self).balances@);
            }
        }
        true
    }

    /// The token's name, its symbol, its decimals and the total supply as
    /// it stands.
    pub fn token_info(&self) -> (info: (String, String, u8, u64))
        requires
            self.wf(),
        ensures
            info.0@ == token_name(),
            info.1@ == token_symbol(),
            info.2 == DECIMALS,
            info.3 == self@.total_supply,
    {
        (self.token_name.clone(), self.token_symbol.clone(), self.decimals, self.total_supply)
    }

    /// Creates `amount` new tokens for `to`, and returns whether it did.
    /// Minting is declined, and nothing changes, unless the ledger is
    /// initialized, `caller` is its owner and the total supply stays
    /// within a `u64`. Balance and total supply change together or not at
    /// all.
    pub fn mint(&mut self, caller: &AccountId, to: &AccountId, amount: u64) -> (accepted: bool)
        requires
            old(self).wf(),
        ensures
            final(self).wf(),
            accepted == old(self)@.mint_accepted(caller@, amount),
            final(self)@ == old(self)@.mint(caller@, to@, amount),
            final(self)@.total_supply == sum_of(final(self)@.balances),
            caller@ != old(self)@.owner ==> !accepted && final(self)@ == old(self)@,
    {
        proof {
            self.lemma_wf_is_valid();
        }
        if !self.initialized || self.owner != *caller {
            return false;
        }
        let new_supply = match self.total_supply.checked_add(amount) {
            Some(supply) => supply,
            None => {
                return false;
            },
        };
        proof {
            lemma_mint_keeps_valid(self@, caller@, to@, amount);
            lemma_balance_fits(self@, to@);
        }
        let recipient_balance = self.balances.balance_of(to);
        self.balances.set_balance(to, recipient_balance + amount);
        self.total_supply = new_supply;
        true
    }
}

} // verus!
