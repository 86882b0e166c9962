//! Element types of tensors.
use vstd::prelude::*;

verus! {

/// An element type with distinguished zero, one, largest and smallest values.
pub trait TensorValue: Copy {
    spec fn spec_zero() -> Self;

    spec fn spec_one() -> Self;

    spec fn spec_max() -> Self;

    spec fn spec_min() -> Self;

    fn zero() -> (r: Self)
        ensures
            r == Self::spec_zero(),
    ;

    fn one() -> (r: Self)
        ensures
            r == Self::spec_one(),
    ;

    fn max_value() -> (r: Self)
        ensures
            r == Self::spec_max(),
    ;

    fn min_value() -> (r: Self)
        ensures
            r == Self::spec_min(),
    ;
}

impl TensorValue for u8 {
    open spec fn spec_zero() -> u8 {
        0
    }

    open spec fn spec_one() -> u8 {
        1
    }

    open spec fn spec_max() -> u8 {
        u8::MAX
    }

    open spec fn spec_min() -> u8 {
        0
    }

    fn zero() -> (r: u8) {
        0
    }

    fn one() -> (r: u8) {
        1
    }

    fn max_value() -> (r: u8) {
        u8::MAX
    }

    fn min_value() -> (r: u8) {
        0
    }
}

impl TensorValue for u16 {
    open spec fn spec_zero() -> u16 {
        0
    }

    open spec fn spec_one() -> u16 {
        1
    }

    open spec fn spec_max() -> u16 {
        u16::MAX
    }

    open spec fn spec_min() -> u16 {
        0
    }

    fn zero() -> (r: u16) {
        0
    }

    fn one() -> (r: u16) {
        1
    }

    fn max_value() -> (r: u16) {
        u16::MAX
    }

    fn min_value() -> (r: u16) {
        0
    }
}

impl TensorValue for u32 {
    open spec fn spec_zero() -> u32 {
        0
    }

    open spec fn spec_one() -> u32 {
        1
    }

    open spec fn spec_max() -> u32 {
        u32::MAX
    }

    open spec fn spec_min() -> u32 {
        0
    }

    fn zero() -> (r: u32) {
        0
    }

    fn one() -> (r: u32) {
        1
    }

    fn max_value() -> (r: u32) {
        u32::MAX
    }

    fn min_value() -> (r: u32) {
        0
    }
}

impl TensorValue for u64 {
    open spec fn spec_zero() -> u64 {
        0
    }

    open spec fn spec_one() -> u64 {
        1
    }

    open spec fn spec_max() -> u64 {
        u64::MAX
    }

    open spec fn spec_min() -> u64 {
        0
    }

    fn zero() -> (r: u64) {
        0
    }

    fn one() -> (r: u64) {
        1
    }

    fn max_value() -> (r: u64) {
        u64::MAX
    }

    fn min_value() -> (r: u64) {
        0
    }
}

impl TensorValue for u128 {
    open spec fn spec_zero() -> u128 {
        0
    }

    open spec fn spec_one() -> u128 {
        1
    }

    open spec fn spec_max() -> u128 {
        u128::MAX
    }

    open spec fn spec_min() -> u128 {
        0
    }

    fn zero() -> (r: u128) {
        0
    }

    fn one() -> (r: u128) {
        1
    }

    fn max_value() -> (r: u128) {
        u128::MAX
    }

    fn min_value() -> (r: u128) {
        0
    }
}

impl TensorValue for usize {
    open spec fn spec_zero() -> usize {
        0
    }

    open spec fn spec_one() -> usize {
        1
    }

    open spec fn spec_max() -> usize {
        usize::MAX
    }

    open spec fn spec_min() -> usize {
        0
    }

    fn zero() -> (r: usize) {
        0
    }

    fn one() -> (r: usize) {
        1
    }

    fn max_value() -> (r: usize) {
        usize::MAX
    }

    fn min_value() -> (r: usize) {
        0
    }
}

impl TensorValue for i8 {
    open spec fn spec_zero() -> i8 {
        0
    }

    open spec fn spec_one() -> i8 {
        1
    }

    open spec fn spec_max() -> i8 {
        i8::MAX
    }

    open spec fn spec_min() -> i8 {
        i8::MIN
    }

    fn zero() -> (r: i8) {
        0
    }

    fn one() -> (r: i8) {
        1
    }

    fn max_value() -> (r: i8) {
        i8::MAX
    }

    fn min_value() -> (r: i8) {
        i8::MIN
    }
}

impl TensorValue for i16 {
    open spec fn spec_zero() -> i16 {
        0
    }

    open spec fn spec_one() -> i16 {
        1
    }

    open spec fn spec_max() -> i16 {
        i16::MAX
    }

    open spec fn spec_min() -> i16 {
        i16::MIN
    }

    fn zero() -> (r: i16) {
        0
    }

    fn one() -> (r: i16) {
        1
    }

    fn max_value() -> (r: i16) {
        i16::MAX
    }

    fn min_value() -> (r: i16) {
        i16::MIN
    }
}

impl TensorValue for i32 {
    open spec fn spec_zero() -> i32 {
        0
    }

    open spec fn spec_one() -> i32 {
        1
    }

    open spec fn spec_max() -> i32 {
        i32::MAX
    }

    open spec fn spec_min() -> i32 {
        i32::MIN
    }

    fn zero() -> (r: i32) {
        0
    }

    fn one() -> (r: i32) {
        1
    }

    fn max_value() -> (r: i32) {
        i32::MAX
    }

    fn min_value() -> (r: i32) {
        i32::MIN
    }
}

impl TensorValue for i64 {
    open spec fn spec_zero() -> i64 {
        0
    }

    open spec fn spec_one() -> i64 {
        1
    }

    open spec fn spec_max() -> i64 {
        i64::MAX
    }

    open spec fn spec_min() -> i64 {
        i64::MIN
    }

    fn zero() -> (r: i64) {
        0
    }

    fn one() -> (r: i64) {
        1
    }

    fn max_value() -> (r: i64) {
        i64::MAX
    }

    fn min_value() -> (r: i64) {
        i64::MIN
    }
}

impl TensorValue for i128 {
    open spec fn spec_zero() -> i128 {
        0
    }

    open spec fn spec_one() -> i128 {
        1
    }

    open spec fn spec_max() -> i128 {
        i128::MAX
    }

    open spec fn spec_min() -> i128 {
        i128::MIN
    }

    fn zero() -> (r: i128) {
        0
    }

    fn one() -> (r: i128) {
        1
    }

    fn max_value() -> (r: i128) {
        i128::MAX
    }

    fn min_value() -> (r: i128) {
        i128::MIN
    }
}

impl TensorValue for isize {
    open spec fn spec_zero() -> isize {
        0
    }

    open spec fn spec_one() -> isize {
        1
    }

    open spec fn spec_max() -> isize {
        isize::MAX
    }

    open spec fn spec_min() -> isize {
        isize::MIN
    }

    fn zero() -> (r: isize) {
        0
    }

    fn one() -> (r: isize) {
        1
    }

    fn max_value() -> (r: isize) {
        isize::MAX
    }

    fn min_value() -> (r: isize) {
        isize::MIN
    }
}

impl TensorValue for bool {
    open spec fn spec_zero() -> bool {
        false
    }

    open spec fn spec_one() -> bool {
        true
    }

    open spec fn spec_max() -> bool {
        true
    }

    open spec fn spec_min() -> bool {
        false
    }

    fn zero() -> (r: bool) {
        false
    }

    fn one() -> (r: bool) {
        true
    }

    fn max_value() -> (r: bool) {
        true
    }

    fn min_value() -> (r: bool) {
        false
    }
}

} // verus!
