//! Policy flags attached to every cvar.

use vstd::prelude::*;

verus! {

/// Flags that can be applied to cvars.
///
/// Every flag from bit 32 upwards is reserved for the host application;
/// every flag below is reserved to this library.
#[derive(Debug, Clone, Copy, PartialEq, Eq, PartialOrd, Ord, Hash, Structural)]
pub struct CVarFlags(pub u64);

impl CVarFlags {
    /// Bits of the no-op flag set.
    pub const LOCAL: u64 = 0;

    /// Bit set when the cvar is persisted to and loaded from the user's settings.
    pub const SAVED: u64 = 0b0000_0001;

    /// Bit set when the cvar is eligible for replication to peers.
    pub const MIRRORED: u64 = 0b0000_0010;

    /// Bit set when a modification of the cvar takes effect without a restart.
    pub const RUNTIME: u64 = 0b0000_0100;

    /// The bits of the flag set.
    pub open spec fn bits(&self) -> u64 {
        self.0
    }

    /// `self` holds every bit of `other`.
    pub open spec fn contains_spec(&self, other: CVarFlags) -> bool {
        self.0 & other.0 == other.0
    }

    /// Returns true if `self` contains every flag of `other`.
    #[verifier::when_used_as_spec(contains_spec)]
    #[must_use]
    pub fn contains(&self, other: CVarFlags) -> (r: bool)
        ensures
            r == self.contains_spec(other),
    {
        let and = *self & other;
        and.0 == other.0
    }
}

impl core::ops::BitOr for CVarFlags {
    type Output = CVarFlags;

    fn bitor(self, rhs: Self) -> (r: CVarFlags) {
        CVarFlags(self.0 | rhs.0)
    }
}

impl vstd::std_specs::ops::BitOrSpecImpl for CVarFlags {
    open spec fn obeys_bitor_spec() -> bool {
        true
    }

    open spec fn bitor_req(self, rhs: Self) -> bool {
        true
    }

    open spec fn bitor_spec(self, rhs: Self) -> CVarFlags {
        CVarFlags(self.0 | rhs.0)
    }
}

impl core::ops::BitAnd for CVarFlags {
    type Output = CVarFlags;

    fn bitand(self, rhs: Self) -> (r: CVarFlags) {
        CVarFlags(self.0 & rhs.0)
    }
}

impl vstd::std_specs::ops::BitAndSpecImpl for CVarFlags {
    open spec fn obeys_bitand_spec() -> bool {
        true
    }

    open spec fn bitand_req(self, rhs: Self) -> bool {
        true
    }

    open spec fn bitand_spec(self, rhs: Self) -> CVarFlags {
        CVarFlags(self.0 & rhs.0)
    }
}

} // verus!
