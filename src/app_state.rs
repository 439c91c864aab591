use vstd::prelude::*;

verus! {

/// Whether the node editor takes input or the view behind it does.
#[derive(Clone, Copy, Debug, PartialEq, Eq, Structural)]
pub enum EditMode {
    Editing,
    View,
}

impl EditMode {
    /// Flips to the other mode and returns it.
    pub fn switch(&mut self) -> (r: EditMode)
        ensures
            *old(self) == EditMode::Editing ==> *final(self) == EditMode::View,
            *old(self) == EditMode::View ==> *final(self) == EditMode::Editing,
            r == *final(self),
    {
        match self {
            EditMode::Editing => *self = EditMode::View,
            EditMode::View => *self = EditMode::Editing,
        }
        *self
    }
}

} // verus!
