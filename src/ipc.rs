//! Descriptions of outputs handed to the scripting layer.

use vstd::prelude::*;
use vstd::string::StringExecFns;

verus! {

/// An output as the scripting layer sees it.
#[derive(Debug, PartialEq, Eq, Hash)]
pub struct Output {
    pub name: String,
    pub effective_resolution: (i32, i32),
    pub focused: bool,
}

impl Clone for Output {
    fn clone(&self) -> (r: Output)
        ensures
            r.name@ == self.name@,
            r.effective_resolution == self.effective_resolution,
            r.focused == self.focused,
    {
        Output {
            name: self.name.clone(),
            effective_resolution: self.effective_resolution,
            focused: self.focused,
        }
    }
}

impl Output {
    /// A stand-in output: "hi", 1920 by 1080, focused.
    pub fn new() -> (r: Output)
        ensures
            r.name@ == "hi"@,
            r.effective_resolution == (1920i32, 1080i32),
            r.focused,
    {
        Output { name: String::from_str("hi"), effective_resolution: (1920, 1080), focused: true }
    }
}

} // verus!
