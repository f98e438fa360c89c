//! The increment capability: a per-type operation giving the unique
//! discrete successor of a value.

use vstd::prelude::*;
use vstd::laws_cmp::obeys_cmp;
use vstd::std_specs::cmp::OrdSpec;
use core::cmp::Ordering;

verus! {

/// A trait representing the capability to increment a value.
///
/// Besides the single executable operation `inc`, the trait fixes the
/// mathematical model that the rest of the library reasons in: every
/// value of the type stands for an integer (`value`), the successor of a
/// value stands for the integer one above it, the mapping is injective
/// and leaves no room between two values, and the type's `Ord` ordering
/// is exactly the ordering of the integers stood for. The capability is
/// therefore only implementable for discrete ordered types; it is
/// provided here for all standard integer widths.
pub trait Inc: Copy + Ord {
    /// The integer that this value stands for.
    spec fn value(self) -> int;

    /// Whether the type holds a value one above this one.
    spec fn has_succ(self) -> bool;

    /// The type is discrete and gapless: a value strictly below another
    /// value of the type always has a successor in the type.
    proof fn lemma_discrete(a: Self, b: Self)
        requires
            a.value() < b.value(),
        ensures
            a.has_succ(),
    ;

    /// Two values standing for the same integer are the same value.
    proof fn lemma_value_injective(a: Self, b: Self)
        requires
            a.value() == b.value(),
        ensures
            a == b,
    ;

    /// The type's `Ord` comparison is lawful and orders values exactly
    /// as the integers they stand for.
    proof fn lemma_cmp_is_value_order(a: Self, b: Self)
        ensures
            obeys_cmp::<Self>(),
            (a.cmp_spec(&b) is Less) <==> (a.value() < b.value()),
    ;

    /// Increment self and return the new value.
    fn inc(self) -> (r: Self)
        requires
            self.has_succ(),
        ensures
            r.value() == self.value() + 1,
    ;

    /// Whether this value stands strictly below the other.
    fn val_lt(&self, other: &Self) -> (r: bool)
        ensures
            r == (self.value() < other.value()),
    ;

    /// Whether this value stands at or below the other.
    fn val_le(&self, other: &Self) -> (r: bool)
        ensures
            r == (self.value() <= other.value()),
    ;
}

impl Inc for u8 {
    open spec fn value(self) -> int {
        self as int
    }

    open spec fn has_succ(self) -> bool {
        self < u8::MAX
    }

    proof fn lemma_discrete(a: u8, b: u8) {
    }

    proof fn lemma_value_injective(a: u8, b: u8) {
    }

    proof fn lemma_cmp_is_value_order(a: u8, b: u8) {
        broadcast use vstd::laws_cmp::group_laws_cmp;

    }

    fn inc(self) -> (r: u8) {
        self + 1
    }

    fn val_lt(&self, other: &u8) -> (r: bool) {
        *self < *other
    }

    fn val_le(&self, other: &u8) -> (r: bool) {
        *self <= *other
    }
}


impl Inc for i8 {
    open spec fn value(self) -> int {
        self as int
    }

    open spec fn has_succ(self) -> bool {
        self < i8::MAX
    }

    proof fn lemma_discrete(a: i8, b: i8) {
    }

    proof fn lemma_value_injective(a: i8, b: i8) {
    }

    proof fn lemma_cmp_is_value_order(a: i8, b: i8) {
        broadcast use vstd::laws_cmp::group_laws_cmp;

    }

    fn inc(self) -> (r: i8) {
        self + 1
    }

    fn val_lt(&self, other: &i8) -> (r: bool) {
        *self < *other
    }

    fn val_le(&self, other: &i8) -> (r: bool) {
        *self <= *other
    }
}

impl Inc for u16 {
    open spec fn value(self) -> int {
        self as int
    }

    open spec fn has_succ(self) -> bool {
        self < u16::MAX
    }

    proof fn lemma_discrete(a: u16, b: u16) {
    }

    proof fn lemma_value_injective(a: u16, b: u16) {
    }

    proof fn lemma_cmp_is_value_order(a: u16, b: u16) {
        broadcast use vstd::laws_cmp::group_laws_cmp;

    }

    fn inc(self) -> (r: u16) {
        self + 1
    }

    fn val_lt(&self, other: &u16) -> (r: bool) {
        *self < *other
    }

    fn val_le(&self, other: &u16) -> (r: bool) {
        *self <= *other
    }
}

impl Inc for i16 {
    open spec fn value(self) -> int {
        self as int
    }

    open spec fn has_succ(self) -> bool {
        self < i16::MAX
    }

    proof fn lemma_discrete(a: i16, b: i16) {
    }

    proof fn lemma_value_injective(a: i16, b: i16) {
    }

    proof fn lemma_cmp_is_value_order(a: i16, b: i16) {
        broadcast use vstd::laws_cmp::group_laws_cmp;

    }

    fn inc(self) -> (r: i16) {
        self + 1
    }

    fn val_lt(&self, other: &i16) -> (r: bool) {
        *self < *other
    }

    fn val_le(&self, other: &i16) -> (r: bool) {
        *self <= *other
    }
}

impl Inc for u32 {
    open spec fn value(self) -> int {
        self as int
    }

    open spec fn has_succ(self) -> bool {
        self < u32::MAX
    }

    proof fn lemma_discrete(a: u32, b: u32) {
    }

    proof fn lemma_value_injective(a: u32, b: u32) {
    }

    proof fn lemma_cmp_is_value_order(a: u32, b: u32) {
        broadcast use vstd::laws_cmp::group_laws_cmp;

    }

    fn inc(self) -> (r: u32) {
        self + 1
    }

    fn val_lt(&self, other: &u32) -> (r: bool) {
        *self < *other
    }

    fn val_le(&self, other: &u32) -> (r: bool) {
        *self <= *other
    }
}

impl Inc for i32 {
    open spec fn value(self) -> int {
        self as int
    }

    open spec fn has_succ(self) -> bool {
        self < i32::MAX
    }

    proof fn lemma_discrete(a: i32, b: i32) {
    }

    proof fn lemma_value_injective(a: i32, b: i32) {
    }

    proof fn lemma_cmp_is_value_order(a: i32, b: i32) {
        broadcast use vstd::laws_cmp::group_laws_cmp;

    }

    fn inc(self) -> (r: i32) {
        self + 1
    }

    fn val_lt(&self, other: &i32) -> (r: bool) {
        *self < *other
    }

    fn val_le(&self, other: &i32) -> (r: bool) {
        *self <= *other
    }
}

impl Inc for u64 {
    open spec fn value(self) -> int {
        self as int
    }

    open spec fn has_succ(self) -> bool {
        self < u64::MAX
    }

    proof fn lemma_discrete(a: u64, b: u64) {
    }

    proof fn lemma_value_injective(a: u64, b: u64) {
    }

    proof fn lemma_cmp_is_value_order(a: u64, b: u64) {
        broadcast use vstd::laws_cmp::group_laws_cmp;

    }

    fn inc(self) -> (r: u64) {
        self + 1
    }

    fn val_lt(&self, other: &u64) -> (r: bool) {
        *self < *other
    }

    fn val_le(&self, other: &u64) -> (r: bool) {
        *self <= *other
    }
}

impl Inc for i64 {
    open spec fn value(self) -> int {
        self as int
    }

    open spec fn has_succ(self) -> bool {
        self < i64::MAX
    }

    proof fn lemma_discrete(a: i64, b: i64) {
    }

    proof fn lemma_value_injective(a: i64, b: i64) {
    }

    proof fn lemma_cmp_is_value_order(a: i64, b: i64) {
        broadcast use vstd::laws_cmp::group_laws_cmp;

    }

    fn inc(self) -> (r: i64) {
        self + 1
    }

    fn val_lt(&self, other: &i64) -> (r: bool) {
        *self < *other
    }

    fn val_le(&self, other: &i64) -> (r: bool) {
        *self <= *other
    }
}

impl Inc for u128 {
    open spec fn value(self) -> int {
        self as int
    }

    open spec fn has_succ(self) -> bool {
        self < u128::MAX
    }

    proof fn lemma_discrete(a: u128, b: u128) {
    }

    proof fn lemma_value_injective(a: u128, b: u128) {
    }

    proof fn lemma_cmp_is_value_order(a: u128, b: u128) {
        broadcast use vstd::laws_cmp::group_laws_cmp;

    }

    fn inc(self) -> (r: u128) {
        self + 1
    }

    fn val_lt(&self, other: &u128) -> (r: bool) {
        *self < *other
    }

    fn val_le(&self, other: &u128) -> (r: bool) {
        *self <= *other
    }
}

impl Inc for i128 {
    open spec fn value(self) -> int {
        self as int
    }

    open spec fn has_succ(self) -> bool {
        self < i128::MAX
    }

    proof fn lemma_discrete(a: i128, b: i128) {
    }

    proof fn lemma_value_injective(a: i128, b: i128) {
    }

    proof fn lemma_cmp_is_value_order(a: i128, b: i128) {
        broadcast use vstd::laws_cmp::group_laws_cmp;

    }

    fn inc(self) -> (r: i128) {
        self + 1
    }

    fn val_lt(&self, other: &i128) -> (r: bool) {
        *self < *other
    }

    fn val_le(&self, other: &i128) -> (r: bool) {
        *self <= *other
    }
}

impl Inc for usize {
    open spec fn value(self) -> int {
        self as int
    }

    open spec fn has_succ(self) -> bool {
        self < usize::MAX
    }

    proof fn lemma_discrete(a: usize, b: usize) {
    }

    proof fn lemma_value_injective(a: usize, b: usize) {
    }

    proof fn lemma_cmp_is_value_order(a: usize, b: usize) {
        broadcast use vstd::laws_cmp::group_laws_cmp;

    }

    fn inc(self) -> (r: usize) {
        self + 1
    }

    fn val_lt(&self, other: &usize) -> (r: bool) {
        *self < *other
    }

    fn val_le(&self, other: &usize) -> (r: bool) {
        *self <= *other
    }
}

impl Inc for isize {
    open spec fn value(self) -> int {
        self as int
    }

    open spec fn has_succ(self) -> bool {
        self < isize::MAX
    }

    proof fn lemma_discrete(a: isize, b: isize) {
    }

    proof fn lemma_value_injective(a: isize, b: isize) {
    }

    proof fn lemma_cmp_is_value_order(a: isize, b: isize) {
        broadcast use vstd::laws_cmp::group_laws_cmp;

    }

    fn inc(self) -> (r: isize) {
        self + 1
    }

    fn val_lt(&self, other: &isize) -> (r: bool) {
        *self < *other
    }

    fn val_le(&self, other: &isize) -> (r: bool) {
        *self <= *other
    }
}

} // verus!
