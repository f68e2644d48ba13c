//! Account identifiers.

use vstd::prelude::*;

verus! {

/// Where the state of an account is kept.
#[derive(Clone, Copy, Debug, PartialEq, Eq, Structural)]
pub enum AccountStorageMode {
    /// The full state is on chain.
    Public,
    /// The full state is on chain, and the network executes transactions against the account.
    Network,
    /// Only a commitment to the state is on chain.
    Private,
}

/// An account identifier: two field elements. The lowest byte of the prefix carries the version,
/// the type and the storage mode of the account.
#[derive(Clone, Copy, Debug, PartialEq, Eq, Hash, PartialOrd, Ord, Structural)]
pub struct AccountId {
    pub prefix: u64,
    pub suffix: u64,
}

/// The storage mode that the two topmost bits of the prefix's lowest byte stand for.
pub open spec fn storage_mode_of_prefix(prefix: u64) -> Option<AccountStorageMode> {
    let bits = (prefix / 64) % 4;
    if bits == 0 {
        Some(AccountStorageMode::Public)
    } else if bits == 1 {
        Some(AccountStorageMode::Network)
    } else if bits == 2 {
        Some(AccountStorageMode::Private)
    } else {
        None
    }
}

impl AccountId {
    /// The number of bytes of a serialized identifier.
    pub const SERIALIZED_SIZE: usize = 15;

    /// Returns the storage mode, or `None` if the mode bits stand for no mode.
    pub fn storage_mode(&self) -> (r: Option<AccountStorageMode>)
        ensures
            r == storage_mode_of_prefix(self.prefix),
    {
        let bits: u64 = (self.prefix / 64) % 4;
        if bits == 0 {
            Some(AccountStorageMode::Public)
        } else if bits == 1 {
            Some(AccountStorageMode::Network)
        } else if bits == 2 {
            Some(AccountStorageMode::Private)
        } else {
            None
        }
    }

    /// Whether the storage mode is public.
    pub open spec fn spec_is_public(&self) -> bool {
        storage_mode_of_prefix(self.prefix) == Some(AccountStorageMode::Public)
    }

    /// Whether the storage mode is network.
    pub open spec fn spec_is_network(&self) -> bool {
        storage_mode_of_prefix(self.prefix) == Some(AccountStorageMode::Network)
    }

    /// Whether the storage mode is private.
    pub open spec fn spec_is_private(&self) -> bool {
        storage_mode_of_prefix(self.prefix) == Some(AccountStorageMode::Private)
    }

    /// Whether the full state of the account is on chain.
    pub open spec fn spec_has_public_state(&self) -> bool {
        self.spec_is_public() || self.spec_is_network()
    }

    /// Returns whether the storage mode is public.
    #[verifier::when_used_as_spec(spec_is_public)]
    pub fn is_public(&self) -> (r: bool)
        ensures
            r == self.spec_is_public(),
    {
        matches!(self.storage_mode(), Some(AccountStorageMode::Public))
    }

    /// Returns whether the storage mode is network.
    #[verifier::when_used_as_spec(spec_is_network)]
    pub fn is_network(&self) -> (r: bool)
        ensures
            r == self.spec_is_network(),
    {
        matches!(self.storage_mode(), Some(AccountStorageMode::Network))
    }

    /// Returns whether the storage mode is private.
    #[verifier::when_used_as_spec(spec_is_private)]
    pub fn is_private(&self) -> (r: bool)
        ensures
            r == self.spec_is_private(),
    {
        matches!(self.storage_mode(), Some(AccountStorageMode::Private))
    }

    /// Returns whether the full state of the account is on chain.
    #[verifier::when_used_as_spec(spec_has_public_state)]
    pub fn has_public_state(&self) -> (r: bool)
        ensures
            r == self.spec_has_public_state(),
    {
        self.is_public() || self.is_network()
    }
}

/// The storage mode of an account is in the bits 6 and 7 of the prefix: zero for public, one for network
/// and two for private accounts. The state is on chain for the first two.
pub proof fn lemma_storage_modes(id: AccountId)
    ensures
        id.is_public() <==> (id.prefix / 64) % 4 == 0,
        id.is_network() <==> (id.prefix / 64) % 4 == 1,
        id.is_private() <==> (id.prefix / 64) % 4 == 2,
        id.has_public_state() <==> (id.prefix / 64) % 4 <= 1,
{
}

} // verus!
