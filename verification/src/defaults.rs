//! Telling whether a cvar still holds its default value, and making it do so.

use vstd::prelude::*;

verus! {

/// Default value detection for a cvar's resource.
pub trait IsDefault {
    /// The value counts as the default one.
    spec fn is_default_spec(&self) -> bool;

    /// Returns whether or not the value is the default one.
    fn is_default(&self) -> (r: bool)
        ensures
            r == self.is_default_spec(),
    ;
}

/// Flagging a cvar's value as the default one, and going back to the default.
pub trait IsDefaultMut: IsDefault {
    /// Makes the current value count as the default one. The value itself
    /// stays as it is.
    fn set_is_default(&mut self)
        ensures
            final(self).is_default_spec(),
    ;

    /// Resets the value to its default.
    fn reset_to_default(&mut self)
        ensures
            final(self).is_default_spec(),
    ;
}

} // verus!
