//! The choice between the two submission paths.

use vstd::prelude::*;

verus! {

/// The path that submissions take: the persistent channel to the current
/// leader, or a plain request to the generic endpoint.
#[derive(Clone, Copy, Debug, PartialEq, Eq, Structural)]
pub enum TransportMode {
    Direct,
    Generic,
}

impl TransportMode {
    /// The mode for a caller's flag: the generic endpoint if asked for, the
    /// direct channel otherwise.
    pub fn select(use_generic: bool) -> (mode: TransportMode)
        ensures
            mode == if use_generic {
                TransportMode::Generic
            } else {
                TransportMode::Direct
            },
    {
        if use_generic {
            TransportMode::Generic
        } else {
            TransportMode::Direct
        }
    }

    pub fn is_direct(&self) -> (direct: bool)
        ensures
            direct == (*self is Direct),
    {
        match self {
            TransportMode::Direct => true,
            TransportMode::Generic => false,
        }
    }
}

} // verus!
