//! Declared visibility of symbols.

use vstd::prelude::*;

verus! {

/// The declared visibility of a symbol.
#[derive(Debug, Clone, Copy, PartialEq, Eq, Structural)]
pub enum Accessibility {
    /// `private` (the default for class members).
    Private,
    /// `internal`.
    Internal,
    /// `protected`.
    Protected,
    /// `public`.
    Public,
}

/// The libvala `ValaSymbolAccessibility` value of each visibility.
pub open spec fn access_code(a: Accessibility) -> u32 {
    match a {
        Accessibility::Private => 0,
        Accessibility::Internal => 1,
        Accessibility::Protected => 2,
        Accessibility::Public => 3,
    }
}

/// libvala's `ValaSymbolAccessibility` codes: private 0, internal 1,
/// protected 2, public 3, each as [`Accessibility::from_raw`] reads it.
pub proof fn lemma_access_codes()
    ensures
        access_code(Accessibility::Private) == 0,
        access_code(Accessibility::Internal) == 1,
        access_code(Accessibility::Protected) == 2,
        access_code(Accessibility::Public) == 3,
{
}

impl Accessibility {
    /// The visibility with libvala code `raw`; libvala has no other codes.
    pub fn from_raw(raw: u32) -> (r: Self)
        requires
            raw <= 3,
        ensures
            access_code(r) == raw,
    {
        match raw {
            0 => Accessibility::Private,
            1 => Accessibility::Internal,
            2 => Accessibility::Protected,
            _ => Accessibility::Public,
        }
    }
}

} // verus!
