//! The coarse call state of the telephone.
//!
//! Only the data declaration exists here: the transitions between these
//! states belong to the surrounding call logic, which is outside this
//! library.

use vstd::prelude::*;

verus! {

/// The phase the telephone is in.
#[derive(Debug, Clone, Copy, PartialEq, Eq, Structural)]
pub enum PhoneState {
    Idle,
    CallPending,
    InCall,
}

} // verus!
