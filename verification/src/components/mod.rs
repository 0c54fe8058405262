//! The screen components and what they share: keys and the spinner.

use vstd::prelude::*;

pub mod home;
pub mod ktree;
pub mod lei;
pub mod patchsets;

verus! {

/// A key press, as far as the components tell keys apart.
#[derive(Clone, Copy, Debug, PartialEq, Eq, Structural)]
pub enum Key {
    Char(char),
    Enter,
    Esc,
    Other,
}

/// Number of frames of the busy spinner.
pub const SPINNER_LEN: usize = 4;

/// The text of spinner frame `i`.
pub open spec fn spinner_text(i: nat) -> Seq<char> {
    if i == 0 {
        seq![]
    } else if i == 1 {
        seq!['.']
    } else if i == 2 {
        seq!['.', '.']
    } else {
        seq!['.', '.', '.']
    }
}

/// Spinner frame `i`.
pub fn spinner_frame(i: usize) -> (r: &'static str)
    requires
        i < SPINNER_LEN,
    ensures
        r@ == spinner_text(i as nat),
{
    if i == 0 {
        proof {
            reveal_strlit("");
        }
        ""
    } else if i == 1 {
        proof {
            reveal_strlit(".");
        }
        "."
    } else if i == 2 {
        proof {
            reveal_strlit("..");
        }
        ".."
    } else {
        proof {
            reveal_strlit("...");
        }
        "..."
    }
}

} // verus!
