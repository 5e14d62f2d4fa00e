//! Account identifiers: opaque byte strings, as the Internet Computer's
//! principals are.

use vstd::prelude::*;
use vstd::slice::slice_to_vec;
use vstd::std_specs::cmp::PartialEqSpecImpl;

verus! {

/// The most bytes an account identifier can hold.
pub const MAX_ACCOUNT_BYTES: usize = 29;

/// Identifies the holder of a balance. The ledger reads nothing from the
/// bytes: two identifiers name the same account exactly when their bytes
/// are the same.
#[derive(Debug, Hash)]
pub struct AccountId {
    bytes: Vec<u8>,
}

impl View for AccountId {
    type V = Seq<u8>;

    closed spec fn view(&self) -> Seq<u8> {
        self.bytes@
    }
}

/// The bytes of the anonymous principal.
pub open spec fn anonymous_bytes() -> Seq<u8> {
    seq![4u8]
}

/// Calls `candid::Principal::anonymous` and copies out the bytes that
/// `as_slice` gives for it. Trusted: that principal is the one byte 4.
#[verifier::external_body]
fn anonymous_principal() -> (bytes: Vec<u8>)
    ensures
        bytes@ == anonymous_bytes(),
{
    candid::Principal::anonymous().as_slice().to_vec()
}

impl AccountId {
    #[verifier::type_invariant]
    spec fn bounded(self) -> bool {
        self.bytes@.len() <= MAX_ACCOUNT_BYTES
    }

    /// The identifier that holds exactly `bytes`, or `None` where they are
    /// more than an identifier can hold.
    pub fn from_bytes(bytes: &[u8]) -> (account: Option<AccountId>)
        ensures
            account.is_some() <==> bytes@.len() <= MAX_ACCOUNT_BYTES,
            account matches Some(a) ==> a@ == bytes@,
    {
        if bytes.len() <= MAX_ACCOUNT_BYTES {
            Some(AccountId { bytes: slice_to_vec(bytes) })
        } else {
            None
        }
    }

    /// The identifier of a caller that has not authenticated.
    pub fn anonymous() -> (account: AccountId)
        ensures
            account@ == anonymous_bytes(),
    {
        AccountId { bytes: anonymous_principal() }
    }

    /// The identifier's bytes.
    pub fn as_bytes(&self) -> (bytes: &[u8])
        ensures
            bytes@ == self@,
            bytes@.len() <= MAX_ACCOUNT_BYTES,
    {
        proof {
            use_type_invariant(self);
        }
        self.bytes.as_slice()
    }
}

impl Clone for AccountId {
    fn clone(&self) -> (account: Self)
        ensures
            account@ == self@,
    {
        proof {
            use_type_invariant(self);
        }
        AccountId { bytes: self.bytes.clone() }
    }
}

impl PartialEq for AccountId {
    fn eq(&self, other: &Self) -> (same: bool) {
        let same = self.bytes == other.bytes;
        proof {
            if same {
                assert(self.bytes@ =~= other.bytes@);
            }
        }
        same
    }
}

impl Eq for AccountId {}

impl PartialEqSpecImpl for AccountId {
    open spec fn obeys_eq_spec() -> bool {
        true
    }

    open spec fn eq_spec(&self, other: &Self) -> bool {
        self@ == other@
    }
}

} // verus!
