//! Global state of the scripting API object.

use vstd::prelude::*;

verus! {

/// What the global scripting object keeps.
#[derive(Clone, Debug)]
pub struct AwesomeState {
    pub preferred_icon_size: u32,
}

impl Default for AwesomeState {
    fn default() -> (r: AwesomeState)
        ensures
            r.preferred_icon_size == 0,
    {
        AwesomeState { preferred_icon_size: 0 }
    }
}

impl AwesomeState {
    /// Records the icon size the scripts prefer.
    pub fn set_preferred_icon_size(&mut self, val: u32)
        ensures
            final(self).preferred_icon_size == val,
    {
        self.preferred_icon_size = val;
    }
}

} // verus!
