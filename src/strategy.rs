//! How a token leaves jail.

use vstd::prelude::*;

verus! {

/// The jail-exit policy.
#[derive(Debug, Clone, Copy, PartialEq, Eq, Structural)]
pub enum Strategy {
    /// Pay at once: the token always leaves on its next roll.
    PayJail,
    /// Try for a double on up to three rolls before leaving.
    JailWait,
}

} // verus!
