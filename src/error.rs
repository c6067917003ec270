use vstd::prelude::*;

verus! {

/// Failures that the editing core reports to its caller.
#[derive(Debug, Clone, Copy, PartialEq, Eq, Structural)]
pub enum Error {
    /// A line holds a control character other than a tab.
    ControlCharInText(char),
}

} // verus!
