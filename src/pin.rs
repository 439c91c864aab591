use vstd::prelude::*;

verus! {

/// A node input: a user-entered value, optionally shadowed by a value pushed
/// from an upstream connection.
#[derive(Clone, Copy, Debug, PartialEq, Eq, Structural)]
pub struct NodePin<T> {
    pub initial: T,
    pub value: Option<T>,
}

impl<T> NodePin<T> {
    /// The value the pin currently stands for.
    pub open spec fn effective(&self) -> T {
        match self.value {
            Some(v) => v,
            None => self.initial,
        }
    }

    pub fn new(initial: T) -> (r: Self)
        ensures
            r.initial == initial,
            r.value is None,
            r.effective() == initial,
    {
        NodePin { initial, value: None }
    }

    pub fn as_ref(&self) -> (r: &T)
        ensures
            *r == self.effective(),
    {
        match &self.value {
            Some(v) => v,
            None => &self.initial,
        }
    }

    /// Whether an upstream connection currently overrides the pin.
    pub fn is_connected(&self) -> (r: bool)
        ensures
            r == self.value is Some,
    {
        self.value.is_some()
    }

    /// Mutable access to the effective value: the override while connected,
    /// the user-entered value otherwise.
    pub fn as_mut(&mut self) -> (r: &mut T)
        ensures
            *r == old(self).effective(),
            old(self).value is Some ==> *final(self) == (NodePin {
                initial: old(self).initial,
                value: Some(*final(r)),
            }),
            old(self).value is None ==> *final(self) == (NodePin {
                initial: *final(r),
                value: None::<T>,
            }),
    {
        match &mut self.value {
            Some(v) => v,
            None => &mut self.initial,
        }
    }

    /// Installs a value pushed from a connection.
    pub fn set(&mut self, value: T)
        ensures
            final(self).initial == old(self).initial,
            final(self).value == Some(value),
            final(self).effective() == value,
    {
        self.value = Some(value);
    }

    /// Drops the connection's value, falling back to the user-entered one.
    pub fn reset(&mut self)
        ensures
            final(self).initial == old(self).initial,
            final(self).value is None,
            final(self).effective() == old(self).initial,
    {
        self.value = None;
    }
}

impl<T: Copy> NodePin<T> {
    pub fn get(&self) -> (r: T)
        ensures
            r == self.effective(),
    {
        match self.value {
            Some(v) => v,
            None => self.initial,
        }
    }
}

impl<T: Default> NodePin<T> {
    /// A pin whose user-entered value is the type's default.
    pub fn with_default() -> (r: Self)
        ensures
            r.value is None,
    {
        NodePin { initial: T::default(), value: None }
    }
}

/// Disconnecting after a connection restores what the pin stood for before the
/// connection, whatever value the connection pushed.
pub proof fn lemma_disconnect_restores<T>(before: NodePin<T>, connected: NodePin<T>, after: NodePin<T>, v: T)
    requires
        before.value is None,
        connected.initial == before.initial,
        connected.value == Some(v),
        after.initial == connected.initial,
        after.value is None,
    ensures
        connected.effective() == v,
        after.effective() == before.effective(),
        after == before,
{
}

} // verus!
