//! The element types a range can hold: the fixed-width integers, 8 to 128
//! bits, signed and unsigned. The `RangeElem` trait gives each of them a
//! mathematical view (`as_int`), its extremal values for open-ended bounds,
//! and the few checked operations the range logic needs.

use vstd::prelude::*;

verus! {

/// An integer type usable as the element of a range.
///
/// `as_int` is the mathematical value of an element; `min_spec` and `max_spec`
/// are the least and greatest representable values. The executable methods
/// are the complete arithmetic surface the range engine relies on: extremum
/// lookup for open bounds, ordering, the predecessor used to turn an
/// exclusive bound into an inclusive one, and a checked forward step.
pub trait RangeElem: Sized + Copy {
    /// The mathematical value of this element.
    spec fn as_int(self) -> int;

    /// The least representable value of the type.
    spec fn min_spec() -> int;

    /// The greatest representable value of the type.
    spec fn max_spec() -> int;

    /// Every element lies between the type's extrema.
    proof fn lemma_bounds(self)
        ensures
            Self::min_spec() <= self.as_int() <= Self::max_spec(),
    ;

    /// Two elements with the same mathematical value are the same element.
    proof fn lemma_as_int_injective(self, other: Self)
        requires
            self.as_int() == other.as_int(),
        ensures
            self == other,
    ;

    /// The least representable value, for filling an open start bound.
    fn min_value() -> (r: Self)
        ensures
            r.as_int() == Self::min_spec(),
    ;

    /// The greatest representable value.
    fn max_value() -> (r: Self)
        ensures
            r.as_int() == Self::max_spec(),
    ;

    /// The type's total order.
    fn le(self, other: Self) -> (r: bool)
        ensures
            r == (self.as_int() <= other.as_int()),
    ;

    /// The element one below this one.
    fn pred(self) -> (r: Self)
        requires
            self.as_int() > Self::min_spec(),
        ensures
            r.as_int() == self.as_int() - 1,
    ;

    /// Moves `k` steps forward, or reports that the type cannot represent
    /// the result.
    fn add_steps(self, k: usize) -> (r: Option<Self>)
        ensures
            (match r {
                Some(v) => v.as_int() == self.as_int() + k,
                None => self.as_int() + k > Self::max_spec(),
            }),
    ;
}

impl RangeElem for u8 {
    open spec fn as_int(self) -> int {
        self as int
    }

    open spec fn min_spec() -> int {
        u8::MIN as int
    }

    open spec fn max_spec() -> int {
        u8::MAX as int
    }

    proof fn lemma_bounds(self) {
    }

    proof fn lemma_as_int_injective(self, other: Self) {
    }

    fn min_value() -> (r: Self) {
        u8::MIN
    }

    fn max_value() -> (r: Self) {
        u8::MAX
    }

    fn le(self, other: Self) -> (r: bool) {
        self <= other
    }

    fn pred(self) -> (r: Self) {
        self - 1
    }

    fn add_steps(self, k: usize) -> (r: Option<Self>) {
        let room: u64 = (u8::MAX - self) as u64;
        if (k as u64) <= room {
            Some(self + (k as u8))
        } else {
            None
        }
    }
}

impl RangeElem for u16 {
    open spec fn as_int(self) -> int {
        self as int
    }

    open spec fn min_spec() -> int {
        u16::MIN as int
    }

    open spec fn max_spec() -> int {
        u16::MAX as int
    }

    proof fn lemma_bounds(self) {
    }

    proof fn lemma_as_int_injective(self, other: Self) {
    }

    fn min_value() -> (r: Self) {
        u16::MIN
    }

    fn max_value() -> (r: Self) {
        u16::MAX
    }

    fn le(self, other: Self) -> (r: bool) {
        self <= other
    }

    fn pred(self) -> (r: Self) {
        self - 1
    }

    fn add_steps(self, k: usize) -> (r: Option<Self>) {
        let room: u64 = (u16::MAX - self) as u64;
        if (k as u64) <= room {
            Some(self + (k as u16))
        } else {
            None
        }
    }
}

impl RangeElem for u32 {
    open spec fn as_int(self) -> int {
        self as int
    }

    open spec fn min_spec() -> int {
        u32::MIN as int
    }

    open spec fn max_spec() -> int {
        u32::MAX as int
    }

    proof fn lemma_bounds(self) {
    }

    proof fn lemma_as_int_injective(self, other: Self) {
    }

    fn min_value() -> (r: Self) {
        u32::MIN
    }

    fn max_value() -> (r: Self) {
        u32::MAX
    }

    fn le(self, other: Self) -> (r: bool) {
        self <= other
    }

    fn pred(self) -> (r: Self) {
        self - 1
    }

    fn add_steps(self, k: usize) -> (r: Option<Self>) {
        let room: u64 = (u32::MAX - self) as u64;
        if (k as u64) <= room {
            Some(self + (k as u32))
        } else {
            None
        }
    }
}

impl RangeElem for u64 {
    open spec fn as_int(self) -> int {
        self as int
    }

    open spec fn min_spec() -> int {
        u64::MIN as int
    }

    open spec fn max_spec() -> int {
        u64::MAX as int
    }

    proof fn lemma_bounds(self) {
    }

    proof fn lemma_as_int_injective(self, other: Self) {
    }

    fn min_value() -> (r: Self) {
        u64::MIN
    }

    fn max_value() -> (r: Self) {
        u64::MAX
    }

    fn le(self, other: Self) -> (r: bool) {
        self <= other
    }

    fn pred(self) -> (r: Self) {
        self - 1
    }

    fn add_steps(self, k: usize) -> (r: Option<Self>) {
        let room: u64 = u64::MAX - self;
        if (k as u64) <= room {
            Some(self + (k as u64))
        } else {
            None
        }
    }
}

impl RangeElem for u128 {
    open spec fn as_int(self) -> int {
        self as int
    }

    open spec fn min_spec() -> int {
        u128::MIN as int
    }

    open spec fn max_spec() -> int {
        u128::MAX as int
    }

    proof fn lemma_bounds(self) {
    }

    proof fn lemma_as_int_injective(self, other: Self) {
    }

    fn min_value() -> (r: Self) {
        u128::MIN
    }

    fn max_value() -> (r: Self) {
        u128::MAX
    }

    fn le(self, other: Self) -> (r: bool) {
        self <= other
    }

    fn pred(self) -> (r: Self) {
        self - 1
    }

    fn add_steps(self, k: usize) -> (r: Option<Self>) {
        let room: u128 = u128::MAX - self;
        if (k as u128) <= room {
            Some(self + (k as u128))
        } else {
            None
        }
    }
}

impl RangeElem for i8 {
    open spec fn as_int(self) -> int {
        self as int
    }

    open spec fn min_spec() -> int {
        i8::MIN as int
    }

    open spec fn max_spec() -> int {
        i8::MAX as int
    }

    proof fn lemma_bounds(self) {
    }

    proof fn lemma_as_int_injective(self, other: Self) {
    }

    fn min_value() -> (r: Self) {
        i8::MIN
    }

    fn max_value() -> (r: Self) {
        i8::MAX
    }

    fn le(self, other: Self) -> (r: bool) {
        self <= other
    }

    fn pred(self) -> (r: Self) {
        self - 1
    }

    fn add_steps(self, k: usize) -> (r: Option<Self>) {
        let sum: i128 = (self as i128) + (k as i128);
        if sum <= (i8::MAX as i128) {
            Some(sum as i8)
        } else {
            None
        }
    }
}

impl RangeElem for i16 {
    open spec fn as_int(self) -> int {
        self as int
    }

    open spec fn min_spec() -> int {
        i16::MIN as int
    }

    open spec fn max_spec() -> int {
        i16::MAX as int
    }

    proof fn lemma_bounds(self) {
    }

    proof fn lemma_as_int_injective(self, other: Self) {
    }

    fn min_value() -> (r: Self) {
        i16::MIN
    }

    fn max_value() -> (r: Self) {
        i16::MAX
    }

    fn le(self, other: Self) -> (r: bool) {
        self <= other
    }

    fn pred(self) -> (r: Self) {
        self - 1
    }

    fn add_steps(self, k: usize) -> (r: Option<Self>) {
        let sum: i128 = (self as i128) + (k as i128);
        if sum <= (i16::MAX as i128) {
            Some(sum as i16)
        } else {
            None
        }
    }
}

impl RangeElem for i32 {
    open spec fn as_int(self) -> int {
        self as int
    }

    open spec fn min_spec() -> int {
        i32::MIN as int
    }

    open spec fn max_spec() -> int {
        i32::MAX as int
    }

    proof fn lemma_bounds(self) {
    }

    proof fn lemma_as_int_injective(self, other: Self) {
    }

    fn min_value() -> (r: Self) {
        i32::MIN
    }

    fn max_value() -> (r: Self) {
        i32::MAX
    }

    fn le(self, other: Self) -> (r: bool) {
        self <= other
    }

    fn pred(self) -> (r: Self) {
        self - 1
    }

    fn add_steps(self, k: usize) -> (r: Option<Self>) {
        let sum: i128 = (self as i128) + (k as i128);
        if sum <= (i32::MAX as i128) {
            Some(sum as i32)
        } else {
            None
        }
    }
}

impl RangeElem for i64 {
    open spec fn as_int(self) -> int {
        self as int
    }

    open spec fn min_spec() -> int {
        i64::MIN as int
    }

    open spec fn max_spec() -> int {
        i64::MAX as int
    }

    proof fn lemma_bounds(self) {
    }

    proof fn lemma_as_int_injective(self, other: Self) {
    }

    fn min_value() -> (r: Self) {
        i64::MIN
    }

    fn max_value() -> (r: Self) {
        i64::MAX
    }

    fn le(self, other: Self) -> (r: bool) {
        self <= other
    }

    fn pred(self) -> (r: Self) {
        self - 1
    }

    fn add_steps(self, k: usize) -> (r: Option<Self>) {
        let sum: i128 = (self as i128) + (k as i128);
        if sum <= (i64::MAX as i128) {
            Some(sum as i64)
        } else {
            None
        }
    }
}

impl RangeElem for i128 {
    open spec fn as_int(self) -> int {
        self as int
    }

    open spec fn min_spec() -> int {
        i128::MIN as int
    }

    open spec fn max_spec() -> int {
        i128::MAX as int
    }

    proof fn lemma_bounds(self) {
    }

    proof fn lemma_as_int_injective(self, other: Self) {
    }

    fn min_value() -> (r: Self) {
        i128::MIN
    }

    fn max_value() -> (r: Self) {
        i128::MAX
    }

    fn le(self, other: Self) -> (r: bool) {
        self <= other
    }

    fn pred(self) -> (r: Self) {
        self - 1
    }

    fn add_steps(self, k: usize) -> (r: Option<Self>) {
        if self >= 0 {
            let room: i128 = i128::MAX - self;
            if (k as i128) <= room {
                Some(self + (k as i128))
            } else {
                None
            }
        } else {
            Some(self + (k as i128))
        }
    }
}

} // verus!
