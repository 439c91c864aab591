use vstd::prelude::*;

verus! {

/// Which categories of compiled scene data are stale, as a bit set.
#[derive(Clone, Copy, Debug, PartialEq, Eq, Structural, Hash)]
pub struct SceneDirtyFlags {
    pub bits: u32,
}

pub const DIRTY_NONE: u32 = 0;
pub const DIRTY_TEXTURE_VALUE: u32 = 1;
pub const DIRTY_TEXTURE_LAYOUT: u32 = 2;
pub const DIRTY_MATERIAL_VALUE: u32 = 4;
pub const DIRTY_MATERIAL_LAYOUT: u32 = 8;
pub const DIRTY_PRIMITIVE_VALUE: u32 = 16;
pub const DIRTY_PRIMITIVE_LAYOUT: u32 = 32;
pub const DIRTY_ALL: u32 = 0xffff_ffff;
/// Every category but the lowest bit: set only on a fresh scene node, whose
/// first compile must be followed by a second one.
pub const DIRTY_INIT: u32 = 0xffff_fffe;

impl SceneDirtyFlags {
    pub open spec fn is_none(self) -> bool {
        self.bits == DIRTY_NONE
    }

    pub open spec fn is_init(self) -> bool {
        self.bits == DIRTY_INIT
    }

    pub open spec fn is_all(self) -> bool {
        self.bits == DIRTY_ALL
    }

    pub fn none() -> (r: Self)
        ensures
            r.is_none(),
    {
        SceneDirtyFlags { bits: DIRTY_NONE }
    }

    pub fn all() -> (r: Self)
        ensures
            r.is_all(),
    {
        SceneDirtyFlags { bits: DIRTY_ALL }
    }

    pub fn init() -> (r: Self)
        ensures
            r.is_init(),
    {
        SceneDirtyFlags { bits: DIRTY_INIT }
    }

    pub fn from_bits(bits: u32) -> (r: Self)
        ensures
            r.bits == bits,
    {
        SceneDirtyFlags { bits }
    }

    pub fn bits(&self) -> (r: u32)
        ensures
            r == self.bits,
    {
        self.bits
    }

    pub fn is_empty(&self) -> (r: bool)
        ensures
            r == self.is_none(),
    {
        self.bits == DIRTY_NONE
    }

    /// Whether every bit of `other` is set here.
    pub fn contains(&self, other: SceneDirtyFlags) -> (r: bool)
        ensures
            r == (self.bits & other.bits == other.bits),
    {
        self.bits & other.bits == other.bits
    }

    /// Sets every bit of `other`.
    pub fn insert(&mut self, other: SceneDirtyFlags)
        ensures
            final(self).bits == old(self).bits | other.bits,
    {
        self.bits = self.bits | other.bits;
    }

    /// The flags left after one compile: a fresh node asks for a second compile,
    /// any other state is clean.
    pub open spec fn after_compile(self) -> SceneDirtyFlags {
        if self.is_init() {
            SceneDirtyFlags { bits: DIRTY_ALL }
        } else {
            SceneDirtyFlags { bits: DIRTY_NONE }
        }
    }
}

impl Default for SceneDirtyFlags {
    fn default() -> (r: Self)
        ensures
            r.is_init(),
    {
        SceneDirtyFlags { bits: DIRTY_INIT }
    }
}

} // verus!
