//! Category labels for heaps.  A format driver groups its output into
//! purpose buckets (header, strings, blobs, ...); the assembly pass orders
//! heaps by their category, so a category carries a total order through an
//! integer key, and names one default bucket.

use vstd::prelude::*;

verus! {

/// A heap category: a copyable label with a totally ordered integer key and
/// a distinguished default value.  Two categories count as the same bucket
/// exactly when their keys agree.
pub trait HeapCategory: Sized + Copy {
    /// The label's place in the total order.
    spec fn key(&self) -> int;

    /// The key of the default category.
    spec fn default_key() -> int;

    /// Whether the two labels name the same bucket.
    fn cat_eq(&self, other: &Self) -> (r: bool)
        ensures
            r <==> self.key() == other.key(),
    ;

    /// Whether this label sorts before `other`.
    fn cat_lt(&self, other: &Self) -> (r: bool)
        ensures
            r <==> self.key() < other.key(),
    ;

    /// The default category.
    fn default_cat() -> (c: Self)
        ensures
            c.key() == Self::default_key(),
    ;
}

impl HeapCategory for u8 {
    open spec fn key(&self) -> int {
        *self as int
    }

    open spec fn default_key() -> int {
        0
    }

    fn cat_eq(&self, other: &Self) -> bool {
        *self == *other
    }

    fn cat_lt(&self, other: &Self) -> bool {
        *self < *other
    }

    fn default_cat() -> Self {
        0
    }
}

impl HeapCategory for u16 {
    open spec fn key(&self) -> int {
        *self as int
    }

    open spec fn default_key() -> int {
        0
    }

    fn cat_eq(&self, other: &Self) -> bool {
        *self == *other
    }

    fn cat_lt(&self, other: &Self) -> bool {
        *self < *other
    }

    fn default_cat() -> Self {
        0
    }
}

impl HeapCategory for u32 {
    open spec fn key(&self) -> int {
        *self as int
    }

    open spec fn default_key() -> int {
        0
    }

    fn cat_eq(&self, other: &Self) -> bool {
        *self == *other
    }

    fn cat_lt(&self, other: &Self) -> bool {
        *self < *other
    }

    fn default_cat() -> Self {
        0
    }
}

impl HeapCategory for u64 {
    open spec fn key(&self) -> int {
        *self as int
    }

    open spec fn default_key() -> int {
        0
    }

    fn cat_eq(&self, other: &Self) -> bool {
        *self == *other
    }

    fn cat_lt(&self, other: &Self) -> bool {
        *self < *other
    }

    fn default_cat() -> Self {
        0
    }
}

impl HeapCategory for i8 {
    open spec fn key(&self) -> int {
        *self as int
    }

    open spec fn default_key() -> int {
        0
    }

    fn cat_eq(&self, other: &Self) -> bool {
        *self == *other
    }

    fn cat_lt(&self, other: &Self) -> bool {
        *self < *other
    }

    fn default_cat() -> Self {
        0
    }
}

impl HeapCategory for i16 {
    open spec fn key(&self) -> int {
        *self as int
    }

    open spec fn default_key() -> int {
        0
    }

    fn cat_eq(&self, other: &Self) -> bool {
        *self == *other
    }

    fn cat_lt(&self, other: &Self) -> bool {
        *self < *other
    }

    fn default_cat() -> Self {
        0
    }
}

impl HeapCategory for i32 {
    open spec fn key(&self) -> int {
        *self as int
    }

    open spec fn default_key() -> int {
        0
    }

    fn cat_eq(&self, other: &Self) -> bool {
        *self == *other
    }

    fn cat_lt(&self, other: &Self) -> bool {
        *self < *other
    }

    fn default_cat() -> Self {
        0
    }
}

impl HeapCategory for i64 {
    open spec fn key(&self) -> int {
        *self as int
    }

    open spec fn default_key() -> int {
        0
    }

    fn cat_eq(&self, other: &Self) -> bool {
        *self == *other
    }

    fn cat_lt(&self, other: &Self) -> bool {
        *self < *other
    }

    fn default_cat() -> Self {
        0
    }
}

} // verus!
