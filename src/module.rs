//! A loaded executable image: a name and the half-open address range
//! `[base, end)` that it occupies.

use vstd::prelude::*;

verus! {

/// Largest module size: entry offsets are stored in 32 bits.
pub const MAX_MODULE_SIZE: u64 = 0xFFFF_FFFF;

/// What a [`Module`] is: its name and its address range.
pub ghost struct ModuleView {
    pub name: Seq<char>,
    pub base: u64,
    pub end: u64,
}

impl ModuleView {
    /// The range is non-empty and its size fits in a 32-bit offset.
    pub open spec fn wf(self) -> bool {
        valid_range(self.base, self.end)
    }

    /// `pc` lies in `[base, end)`.
    pub open spec fn contains(self, pc: u64) -> bool {
        self.base <= pc && pc < self.end
    }
}

/// A module may span `[base, end)`.
pub open spec fn valid_range(base: u64, end: u64) -> bool {
    base < end && end - base <= MAX_MODULE_SIZE
}

/// A named executable object occupying `[base, end)`.
#[derive(Debug, Clone, Copy)]
pub struct Module {
    name: &'static str,
    base: u64,
    end: u64,
}

impl View for Module {
    type V = ModuleView;

    closed spec fn view(&self) -> ModuleView {
        ModuleView { name: self.name@, base: self.base, end: self.end }
    }
}

impl Module {
    #[verifier::type_invariant]
    closed spec fn inv(&self) -> bool {
        valid_range(self.base, self.end)
    }

    /// Creates a module; its range must be non-empty and at most
    /// `MAX_MODULE_SIZE` bytes long.
    pub fn new(name: &'static str, base: u64, end: u64) -> (r: Self)
        requires
            valid_range(base, end),
        ensures
            r@ == (ModuleView { name: name@, base, end }),
    {
        Module { name, base, end }
    }

    /// Creates a module, or returns `None` when the range is empty, reversed
    /// or larger than `MAX_MODULE_SIZE`.
    pub fn try_new(name: &'static str, base: u64, end: u64) -> (r: Option<Self>)
        ensures
            r is None <==> !valid_range(base, end),
            base >= end ==> r is None,
            end > base && end - base > MAX_MODULE_SIZE ==> r is None,
            r matches Some(m) ==> m@ == (ModuleView { name: name@, base, end }),
    {
        if base < end && end - base <= MAX_MODULE_SIZE {
            Some(Module::new(name, base, end))
        } else {
            None
        }
    }

    /// First address of the module; every module's range is valid.
    pub fn base(&self) -> (r: u64)
        ensures
            r == self@.base,
            self@.wf(),
    {
        proof {
            use_type_invariant(self);
        }
        self.base
    }

    /// First address past the module; every module's range is valid.
    pub fn end(&self) -> (r: u64)
        ensures
            r == self@.end,
            self@.wf(),
    {
        proof {
            use_type_invariant(self);
        }
        self.end
    }

    /// The module's name.
    pub fn name(&self) -> (r: &'static str)
        ensures
            r@ == self@.name,
    {
        self.name
    }

    /// True if the given pc is within this module.
    pub fn contains(&self, pc: u64) -> (r: bool)
        ensures
            r == self@.contains(pc),
    {
        self.base <= pc && pc < self.end
    }
}

/// A range that is empty, reversed, or wider than `MAX_MODULE_SIZE` is not
/// valid: `Module::new` does not accept it and `Module::try_new` returns `None`.
pub proof fn lemma_invalid_ranges(base: u64, end: u64)
    requires
        base >= end || end - base > MAX_MODULE_SIZE,
    ensures
        !valid_range(base, end),
{
}

/// A well-formed module contains its base address and not its end address.
pub proof fn lemma_module_bounds(m: ModuleView)
    requires
        m.wf(),
    ensures
        m.contains(m.base),
        !m.contains(m.end),
{
}

} // verus!
