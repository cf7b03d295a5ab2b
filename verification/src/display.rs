//! Rows of the character display.
//!
//! The display has four rows; the formatter that renders state into them
//! lives outside this library.

use vstd::prelude::*;

verus! {

/// One of the four rows of the character display.
#[derive(Debug, Clone, Copy, PartialEq, Eq, Structural)]
pub enum Row {
    Zero,
    One,
    Two,
    Three,
}

impl Row {
    /// All rows, top to bottom.
    pub fn enumerate() -> (r: [Row; 4])
        ensures
            r@ == seq![Row::Zero, Row::One, Row::Two, Row::Three],
    {
        let r = [Row::Zero, Row::One, Row::Two, Row::Three];
        proof {
            assert(r@ =~= seq![Row::Zero, Row::One, Row::Two, Row::Three]);
        }
        r
    }
}

} // verus!
