//! The stable query contract over a resolved enumeration.

use vstd::prelude::*;

verus! {

/// The query interface of an enumeration whose cases carry resolved
/// semantics: each case value answers with its resolved name and its
/// resolved index. Both operations are total over the case values, and an
/// implementation must answer exactly what the resolver assigned to the
/// matching case.
pub trait Semantics {
    /// Representation of a resolved name, chosen by the implementor.
    type Name;

    /// Representation of a resolved index: a copyable fixed-width number.
    type Index: Copy;

    /// The resolved name of the current case value.
    fn name(&self) -> Self::Name;

    /// The resolved index of the current case value.
    fn index(&self) -> Self::Index;
}

/// Binds a carrier type to exactly one case value of a resolved enumeration:
/// a static, type-level fact, fixed at the carrier type's definition. Every
/// instance of the carrier type reports the same bound case value.
pub trait HasSemantics<Name = &'static str, Index = u8> {
    /// The enumeration that supplies the carrier type's semantics.
    type Sem: Semantics<Name = Name, Index = Index>;

    /// The one case value this carrier type stands for.
    const SEMANTICS: Self::Sem;
}

} // verus!
