//! The ledger as a state machine over mathematical values: what each call
//! does to the balances, the total supply and the owner, and what holds of
//! every state that calls can reach.

use vstd::prelude::*;
use crate::account::anonymous_bytes;
use crate::sums::{
    lemma_sum_of_bounds_one, lemma_sum_of_bounds_two, lemma_sum_of_insert, lemma_sum_of_remove,
    sum_of,
};

verus! {

/// The supply that initialization credits to the owner.
pub const INITIAL_SUPPLY: u64 = 1_000_000_000;

/// The balance that `balances` records for `account`: zero where it
/// records none.
pub open spec fn balance_in(balances: Map<Seq<u8>, u64>, account: Seq<u8>) -> u64 {
    if balances.dom().contains(account) {
        balances[account]
    } else {
        0
    }
}

/// `balances` with the balance of `account` set to `amount`. A balance of
/// zero is not recorded, so that two maps are equal exactly when every
/// account has the same balance in both.
pub open spec fn with_balance(balances: Map<Seq<u8>, u64>, account: Seq<u8>, amount: u64) -> Map<
    Seq<u8>,
    u64,
> {
    if amount == 0 {
        balances.remove(account)
    } else {
        balances.insert(account, amount)
    }
}

/// What the ledger holds, as mathematical values.
pub struct LedgerState {
    /// Whether initialization has taken place.
    pub initialized: bool,
    /// The account that may mint. Before initialization it is the
    /// anonymous account, which then has no authority.
    pub owner: Seq<u8>,
    /// The balances that are not zero.
    pub balances: Map<Seq<u8>, u64>,
    /// The running total of all balances.
    pub total_supply: u64,
}

/// A call that changes the ledger, with the caller's identity made explicit.
pub enum Call {
    /// `caller` initializes the ledger.
    Init { caller: Seq<u8> },
    /// `caller` sends `amount` to `to`.
    Transfer { caller: Seq<u8>, to: Seq<u8>, amount: u64 },
    /// `caller` asks for `amount` new tokens for `to`.
    Mint { caller: Seq<u8>, to: Seq<u8>, amount: u64 },
}

impl LedgerState {
    /// The state before initialization: nobody holds anything.
    pub open spec fn uninitialized() -> LedgerState {
        LedgerState {
            initialized: false,
            owner: anonymous_bytes(),
            balances: Map::empty(),
            total_supply: 0,
        }
    }

    /// The invariant of the ledger: the total supply is the sum of all
    /// balances, finitely many accounts hold a balance, none of them a
    /// balance of zero, and before initialization nothing is held at all.
    pub open spec fn valid(self) -> bool {
        &&& self.balances.dom().finite()
        &&& forall|a: Seq<u8>| self.balances.dom().contains(a) ==> #[trigger] self.balances[a] > 0
        &&& self.total_supply == sum_of(self.balances)
        &&& !self.initialized ==> self == LedgerState::uninitialized()
    }

    /// The balance of `account`.
    pub open spec fn balance_of(self, account: Seq<u8>) -> u64 {
        balance_in(self.balances, account)
    }

    /// Initialization makes `caller` the owner and credits the whole
    /// initial supply to it. On a ledger that is initialized already it
    /// changes nothing.
    pub open spec fn init(self, caller: Seq<u8>) -> LedgerState {
        if self.initialized {
            self
        } else {
            LedgerState {
                initialized: true,
                owner: caller,
                balances: Map::empty().insert(caller, INITIAL_SUPPLY),
                total_supply: INITIAL_SUPPLY,
            }
        }
    }

    /// A transfer is accepted exactly when the sender holds the amount.
    pub open spec fn transfer_accepted(self, caller: Seq<u8>, amount: u64) -> bool {
        self.balance_of(caller) >= amount
    }

    /// An accepted transfer moves `amount` from `caller` to `to`; between
    /// one account and itself it moves nothing. A declined transfer
    /// changes nothing.
    pub open spec fn transfer(self, caller: Seq<u8>, to: Seq<u8>, amount: u64) -> LedgerState {
        if self.transfer_accepted(caller, amount) && caller != to {
            let debited = with_balance(
                self.balances,
                caller,
                (self.balance_of(caller) - amount) as u64,
            );
            let credited = with_balance(debited, to, (self.balance_of(to) + amount) as u64);
            LedgerState { balances: credited, ..self }
        } else {
            self
        }
    }

    /// Minting is accepted exactly when the ledger is initialized, the
    /// caller is its owner and the new total supply is a `u64`.
    pub open spec fn mint_accepted(self, caller: Seq<u8>, amount: u64) -> bool {
        &&& self.initialized
        &&& caller == self.owner
        &&& self.total_supply + amount <= u64::MAX
    }

    /// Accepted minting adds `amount` to the balance of `to` and to the
    /// total supply. Declined minting changes nothing.
    pub open spec fn mint(self, caller: Seq<u8>, to: Seq<u8>, amount: u64) -> LedgerState {
        if self.mint_accepted(caller, amount) {
            LedgerState {
                balances: with_balance(self.balances, to, (self.balance_of(to) + amount) as u64),
                total_supply: (self.total_supply + amount) as u64,
                ..self
            }
        } else {
            self
        }
    }

    /// The state after one call.
    pub open spec fn step(self, call: Call) -> LedgerState {
        match call {
            Call::Init { caller } => self.init(caller),
            Call::Transfer { caller, to, amount } => self.transfer(caller, to, amount),
            Call::Mint { caller, to, amount } => self.mint(caller, to, amount),
        }
    }

    /// The state after a sequence of calls, the first of them first.
    pub open spec fn run(self, calls: Seq<Call>) -> LedgerState
        decreases calls.len(),
    {
        if calls.len() == 0 {
            self
        } else {
            self.run(calls.drop_last()).step(calls.last())
        }
    }
}

/// Setting one balance moves the sum by the difference between the new
/// balance and the old one.
pub proof fn lemma_sum_of_with_balance(balances: Map<Seq<u8>, u64>, account: Seq<u8>, amount: u64)
    requires
        balances.dom().finite(),
    ensures
        sum_of(with_balance(balances, account, amount)) + balance_in(balances, account) == sum_of(
            balances,
        ) + amount,
{
    if amount == 0 {
        if balances.dom().contains(account) {
            lemma_sum_of_remove(balances, account);
        } else {
            assert(balances.remove(account) =~= balances);
        }
    } else {
        lemma_sum_of_insert(balances, account, amount);
    }
}

/// In a valid state the balances of two different accounts add up to no
/// more than the total supply, so crediting one with what the other holds
/// cannot overflow.
pub proof fn lemma_two_balances_fit(state: LedgerState, from: Seq<u8>, to: Seq<u8>)
    requires
        state.valid(),
        from != to,
    ensures
        state.balance_of(from) + state.balance_of(to) <= state.total_supply,
{
    let m = state.balances;
    if m.dom().contains(from) && m.dom().contains(to) {
        lemma_sum_of_bounds_two(m, from, to);
    } else if m.dom().contains(from) {
        lemma_sum_of_bounds_one(m, from);
    } else if m.dom().contains(to) {
        lemma_sum_of_bounds_one(m, to);
    }
}

/// What an accepted transfer between two different accounts does to each
/// balance: the sender's falls by the amount, the recipient's rises by it,
/// and every other balance and the total supply stay as they were.
pub proof fn lemma_transfer_moves_amount(
    state: LedgerState,
    caller: Seq<u8>,
    to: Seq<u8>,
    amount: u64,
)
    requires
        state.valid(),
        state.transfer_accepted(caller, amount),
        caller != to,
    ensures
        state.transfer(caller, to, amount).balance_of(caller) == state.balance_of(caller) - amount,
        state.transfer(caller, to, amount).balance_of(to) == state.balance_of(to) + amount,
        forall|other: Seq<u8>|
            other != caller && other != to ==> #[trigger] state.transfer(
                caller,
                to,
                amount,
            ).balance_of(other) == state.balance_of(other),
        state.transfer(caller, to, amount).total_supply == state.total_supply,
{
    lemma_two_balances_fit(state, caller, to);
}

/// What accepted minting does to each balance: the recipient's rises by
/// the amount, as the total supply does, and every other balance stays as
/// it was.
pub proof fn lemma_mint_adds_amount(state: LedgerState, caller: Seq<u8>, to: Seq<u8>, amount: u64)
    requires
        state.valid(),
        state.mint_accepted(caller, amount),
    ensures
        state.mint(caller, to, amount).balance_of(to) == state.balance_of(to) + amount,
        state.mint(caller, to, amount).total_supply == state.total_supply + amount,
        forall|other: Seq<u8>|
            other != to ==> #[trigger] state.mint(caller, to, amount).balance_of(other)
                == state.balance_of(other),
{
    lemma_balance_fits(state, to);
}

/// In a valid state no balance is larger than the total supply.
pub proof fn lemma_balance_fits(state: LedgerState, account: Seq<u8>)
    requires
        state.valid(),
    ensures
        state.balance_of(account) <= state.total_supply,
{
    if state.balances.dom().contains(account) {
        lemma_sum_of_bounds_one(state.balances, account);
    }
}

/// Initialization of a ledger that was not initialized leaves exactly one
/// balance, the owner's, and it is the whole supply.
pub proof fn lemma_init_seeds_owner(caller: Seq<u8>)
    ensures
        LedgerState::uninitialized().init(caller).valid(),
        LedgerState::uninitialized().init(caller).owner == caller,
        LedgerState::uninitialized().init(caller).total_supply == INITIAL_SUPPLY,
        LedgerState::uninitialized().init(caller).balance_of(caller) == INITIAL_SUPPLY,
        forall|other: Seq<u8>|
            other != caller ==> #[trigger] LedgerState::uninitialized().init(caller).balance_of(
                other,
            ) == 0,
{
    lemma_sum_of_insert(Map::<Seq<u8>, u64>::empty(), caller, INITIAL_SUPPLY);
}

/// Initialization takes a valid state to a valid state.
pub proof fn lemma_init_keeps_valid(state: LedgerState, caller: Seq<u8>)
    requires
        state.valid(),
    ensures
        state.init(caller).valid(),
{
    if !state.initialized {
        lemma_init_seeds_owner(caller);
    }
}

/// A transfer takes a valid state to a valid state.
pub proof fn lemma_transfer_keeps_valid(
    state: LedgerState,
    caller: Seq<u8>,
    to: Seq<u8>,
    amount: u64,
)
    requires
        state.valid(),
    ensures
        state.transfer(caller, to, amount).valid(),
{
    if amount == 0 {
        lemma_zero_transfer_changes_nothing(state, caller, to);
    } else if state.transfer_accepted(caller, amount) && caller != to {
        lemma_two_balances_fit(state, caller, to);
        let left = (state.balance_of(caller) - amount) as u64;
        let debited = with_balance(state.balances, caller, left);
        lemma_sum_of_with_balance(state.balances, caller, left);
        lemma_sum_of_with_balance(debited, to, (state.balance_of(to) + amount) as u64);
    }
}

/// Minting takes a valid state to a valid state.
pub proof fn lemma_mint_keeps_valid(state: LedgerState, caller: Seq<u8>, to: Seq<u8>, amount: u64)
    requires
        state.valid(),
    ensures
        state.mint(caller, to, amount).valid(),
{
    if state.mint_accepted(caller, amount) {
        lemma_balance_fits(state, to);
        lemma_sum_of_with_balance(state.balances, to, (state.balance_of(to) + amount) as u64);
    }
}

/// Every call takes a valid state to a valid state.
pub proof fn lemma_step_keeps_valid(state: LedgerState, call: Call)
    requires
        state.valid(),
    ensures
        state.step(call).valid(),
{
    match call {
        Call::Init { caller } => lemma_init_keeps_valid(state, caller),
        Call::Transfer { caller, to, amount } => lemma_transfer_keeps_valid(
            state,
            caller,
            to,
            amount,
        ),
        Call::Mint { caller, to, amount } => lemma_mint_keeps_valid(state, caller, to, amount),
    }
}

/// Every sequence of calls takes a valid state to a valid state.
pub proof fn lemma_run_keeps_valid(state: LedgerState, calls: Seq<Call>)
    requires
        state.valid(),
    ensures
        state.run(calls).valid(),
    decreases calls.len(),
{
    if calls.len() > 0 {
        lemma_run_keeps_valid(state, calls.drop_last());
        lemma_step_keeps_valid(state.run(calls.drop_last()), calls.last());
    }
}

/// Supply conservation: after any sequence of calls on a valid ledger
/// the total supply is the sum of all balances.
pub proof fn lemma_supply_is_conserved(state: LedgerState, calls: Seq<Call>)
    requires
        state.valid(),
    ensures
        state.run(calls).total_supply == sum_of(state.run(calls).balances),
{
    lemma_run_keeps_valid(state, calls);
}

/// The same of a ledger's whole life: whatever is called on it from the
/// start, total supply and balances agree.
pub proof fn lemma_supply_is_conserved_from_start(calls: Seq<Call>)
    ensures
        LedgerState::uninitialized().run(calls).valid(),
        LedgerState::uninitialized().run(calls).total_supply == sum_of(
            LedgerState::uninitialized().run(calls).balances,
        ),
{
    lemma_run_keeps_valid(LedgerState::uninitialized(), calls);
}

/// Once a ledger is initialized, no sequence of calls changes its owner
/// or takes it back to the state before initialization.
pub proof fn lemma_owner_is_fixed(state: LedgerState, calls: Seq<Call>)
    requires
        state.initialized,
    ensures
        state.run(calls).initialized,
        state.run(calls).owner == state.owner,
    decreases calls.len(),
{
    if calls.len() > 0 {
        lemma_owner_is_fixed(state, calls.drop_last());
    }
}

/// The total supply never falls: transfers keep it and minting adds to it.
pub proof fn lemma_supply_never_falls(state: LedgerState, calls: Seq<Call>)
    requires
        state.valid(),
    ensures
        state.run(calls).total_supply >= state.total_supply,
    decreases calls.len(),
{
    if calls.len() > 0 {
        lemma_supply_never_falls(state, calls.drop_last());
        lemma_run_keeps_valid(state, calls.drop_last());
    }
}

/// No transfer is accepted for more than the sender holds, and a declined
/// transfer leaves the ledger as it was.
pub proof fn lemma_transfer_needs_funds(
    state: LedgerState,
    caller: Seq<u8>,
    to: Seq<u8>,
    amount: u64,
)
    requires
        amount > state.balance_of(caller),
    ensures
        !state.transfer_accepted(caller, amount),
        state.transfer(caller, to, amount) == state,
{
}

/// A transfer of nothing is accepted from any caller to any recipient and
/// leaves every balance as it was.
pub proof fn lemma_zero_transfer_changes_nothing(state: LedgerState, caller: Seq<u8>, to: Seq<u8>)
    requires
        state.valid(),
    ensures
        state.transfer_accepted(caller, 0),
        state.transfer(caller, to, 0) == state,
{
    if caller != to {
        let debited = with_balance(state.balances, caller, state.balance_of(caller));
        assert(debited =~= state.balances);
        assert(with_balance(debited, to, state.balance_of(to)) =~= state.balances);
    }
}

/// A transfer from an account to itself is accepted whenever the account
/// holds the amount, and leaves the ledger as it was.
pub proof fn lemma_self_transfer_changes_nothing(state: LedgerState, caller: Seq<u8>, amount: u64)
    requires
        amount <= state.balance_of(caller),
    ensures
        state.transfer_accepted(caller, amount),
        state.transfer(caller, caller, amount) == state,
{
}

/// Minting by anyone but the owner is declined and leaves the ledger as
/// it was, whoever the recipient and whatever the amount.
pub proof fn lemma_mint_needs_owner(state: LedgerState, caller: Seq<u8>, to: Seq<u8>, amount: u64)
    requires
        caller != state.owner,
    ensures
        !state.mint_accepted(caller, amount),
        state.mint(caller, to, amount) == state,
{
}

} // verus!
