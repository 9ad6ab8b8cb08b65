//! The store's numeric scalar and its conversion contract.
//!
//! A `Scalar` holds either an integer wide enough to carry every fixed-width
//! signed and unsigned integer losslessly, or the bit pattern of a
//! double-width float (the float itself never enters the verified code).
//! The conversions below are the codec's numeric conversion contract:
//! converting a fixed-width value in and back out returns it unchanged.

use vstd::prelude::*;

verus! {

#[derive(Debug, Copy, Clone, Eq, PartialEq, Structural)]
pub enum Scalar {
    Integer(i128),
    /// The raw bit pattern of a double-width float.
    FloatBits(u64),
}

impl Scalar {
    pub fn from_i8(v: i8) -> (r: Scalar)
        ensures r == Scalar::Integer(v as i128),
    {
        Scalar::Integer(v as i128)
    }

    pub fn from_i16(v: i16) -> (r: Scalar)
        ensures r == Scalar::Integer(v as i128),
    {
        Scalar::Integer(v as i128)
    }

    pub fn from_i32(v: i32) -> (r: Scalar)
        ensures r == Scalar::Integer(v as i128),
    {
        Scalar::Integer(v as i128)
    }

    pub fn from_i64(v: i64) -> (r: Scalar)
        ensures r == Scalar::Integer(v as i128),
    {
        Scalar::Integer(v as i128)
    }

    pub fn from_u8(v: u8) -> (r: Scalar)
        ensures r == Scalar::Integer(v as i128),
    {
        Scalar::Integer(v as i128)
    }

    pub fn from_u16(v: u16) -> (r: Scalar)
        ensures r == Scalar::Integer(v as i128),
    {
        Scalar::Integer(v as i128)
    }

    pub fn from_u32(v: u32) -> (r: Scalar)
        ensures r == Scalar::Integer(v as i128),
    {
        Scalar::Integer(v as i128)
    }

    pub fn from_u64(v: u64) -> (r: Scalar)
        ensures r == Scalar::Integer(v as i128),
    {
        Scalar::Integer(v as i128)
    }

    pub fn from_float_bits(bits: u64) -> (r: Scalar)
        ensures r == Scalar::FloatBits(bits),
    {
        Scalar::FloatBits(bits)
    }

    /// Succeeds exactly on integers in the target range, returning them
    /// unchanged; no truncation ever happens.
    pub fn to_i8(&self) -> (r: Option<i8>)
        ensures
            r matches Some(v) <==> (*self matches Scalar::Integer(n)
                && i8::MIN <= n <= i8::MAX),
            r matches Some(v) ==> *self == Scalar::Integer(v as i128),
    {
        match *self {
            Scalar::Integer(n) if i8::MIN as i128 <= n && n <= i8::MAX as i128 =>
                Some(n as i8),
            _ => None,
        }
    }

    pub fn to_i16(&self) -> (r: Option<i16>)
        ensures
            r matches Some(v) <==> (*self matches Scalar::Integer(n)
                && i16::MIN <= n <= i16::MAX),
            r matches Some(v) ==> *self == Scalar::Integer(v as i128),
    {
        match *self {
            Scalar::Integer(n) if i16::MIN as i128 <= n && n <= i16::MAX as i128 =>
                Some(n as i16),
            _ => None,
        }
    }

    pub fn to_i32(&self) -> (r: Option<i32>)
        ensures
            r matches Some(v) <==> (*self matches Scalar::Integer(n)
                && i32::MIN <= n <= i32::MAX),
            r matches Some(v) ==> *self == Scalar::Integer(v as i128),
    {
        match *self {
            Scalar::Integer(n) if i32::MIN as i128 <= n && n <= i32::MAX as i128 =>
                Some(n as i32),
            _ => None,
        }
    }

    pub fn to_i64(&self) -> (r: Option<i64>)
        ensures
            r matches Some(v) <==> (*self matches Scalar::Integer(n)
                && i64::MIN <= n <= i64::MAX),
            r matches Some(v) ==> *self == Scalar::Integer(v as i128),
    {
        match *self {
            Scalar::Integer(n) if i64::MIN as i128 <= n && n <= i64::MAX as i128 =>
                Some(n as i64),
            _ => None,
        }
    }

    pub fn to_u8(&self) -> (r: Option<u8>)
        ensures
            r matches Some(v) <==> (*self matches Scalar::Integer(n)
                && 0 <= n <= u8::MAX),
            r matches Some(v) ==> *self == Scalar::Integer(v as i128),
    {
        match *self {
            Scalar::Integer(n) if 0 <= n && n <= u8::MAX as i128 => Some(n as u8),
            _ => None,
        }
    }

    pub fn to_u16(&self) -> (r: Option<u16>)
        ensures
            r matches Some(v) <==> (*self matches Scalar::Integer(n)
                && 0 <= n <= u16::MAX),
            r matches Some(v) ==> *self == Scalar::Integer(v as i128),
    {
        match *self {
            Scalar::Integer(n) if 0 <= n && n <= u16::MAX as i128 => Some(n as u16),
            _ => None,
        }
    }

    pub fn to_u32(&self) -> (r: Option<u32>)
        ensures
            r matches Some(v) <==> (*self matches Scalar::Integer(n)
                && 0 <= n <= u32::MAX),
            r matches Some(v) ==> *self == Scalar::Integer(v as i128),
    {
        match *self {
            Scalar::Integer(n) if 0 <= n && n <= u32::MAX as i128 => Some(n as u32),
            _ => None,
        }
    }

    pub fn to_u64(&self) -> (r: Option<u64>)
        ensures
            r matches Some(v) <==> (*self matches Scalar::Integer(n)
                && 0 <= n <= u64::MAX),
            r matches Some(v) ==> *self == Scalar::Integer(v as i128),
    {
        match *self {
            Scalar::Integer(n) if 0 <= n && n <= u64::MAX as i128 => Some(n as u64),
            _ => None,
        }
    }

    pub fn to_float_bits(&self) -> (r: Option<u64>)
        ensures
            r.is_some() <==> *self is FloatBits,
            r matches Some(bits) ==> *self == Scalar::FloatBits(bits),
    {
        match *self {
            Scalar::FloatBits(bits) => Some(bits),
            _ => None,
        }
    }
}

} // verus!
