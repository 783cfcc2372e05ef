//! Identifiers of objects and morphism generators.
//!
//! Generators are named by small values that are cheap to copy and whose
//! equality is decidable. The [`Ident`] trait makes that equality available
//! to verified code.

use ustr::Ustr;
use vstd::prelude::*;

verus! {

/// A copyable identifier with decidable equality.
pub trait Ident: Copy + Sized {
    /// Decides whether two identifiers are the same.
    fn same(&self, other: &Self) -> (r: bool)
        ensures
            r == (*self == *other),
    ;
}

impl Ident for char {
    fn same(&self, other: &char) -> (r: bool) {
        *self == *other
    }
}

impl Ident for u32 {
    fn same(&self, other: &u32) -> (r: bool) {
        *self == *other
    }
}

impl Ident for u64 {
    fn same(&self, other: &u64) -> (r: bool) {
        *self == *other
    }
}

impl Ident for usize {
    fn same(&self, other: &usize) -> (r: bool) {
        *self == *other
    }
}

impl Ident for i32 {
    fn same(&self, other: &i32) -> (r: bool) {
        *self == *other
    }
}

impl Ident for i64 {
    fn same(&self, other: &i64) -> (r: bool) {
        *self == *other
    }
}

/// Interned strings of the `ustr` crate, held as opaque handles.
#[verifier::external_type_specification]
#[verifier::external_body]
pub struct ExUstr(Ustr);

/// Relies on the `PartialEq` that `ustr::Ustr` derives on its one field, the
/// pointer to the interned string: two handles compare equal exactly when
/// they are the same value.
pub assume_specification[ <Ustr as PartialEq>::eq ](a: &Ustr, b: &Ustr) -> (r: bool)
    ensures
        r == (*a == *b),
;

impl Ident for Ustr {
    fn same(&self, other: &Ustr) -> (r: bool) {
        *self == *other
    }
}

} // verus!
