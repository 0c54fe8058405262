//! The frame around the application.

use vstd::prelude::*;

use crate::action::Action;

verus! {

/// The home component: a titled frame that takes no action.
pub struct Home {}

impl Home {
    pub fn new() -> (r: Home) {
        Home {  }
    }

    /// No action changes or is answered by the frame.
    pub fn update(&mut self, action: Action) -> (r: Option<Action>)
        ensures
            r is None,
    {
        None
    }

    /// The frame's title.
    pub fn title(&self) -> (r: &'static str)
        ensures
            r@ == " pet-rub "@,
    {
        " pet-rub "
    }
}

impl Default for Home {
    fn default() -> (r: Home) {
        Home::new()
    }
}

} // verus!
