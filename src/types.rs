//! The value types of the language and the fixed names of the runtime.
use vstd::prelude::*;

verus! {

/// The objective under which every score cell lives.
pub const NAMESPACE: &'static str = "MCPP.var";

/// Fixed-point scale of `Float` values: a float `v` is stored as `trunc(v * 1000)`.
pub const FLOAT_MAGNIFICATION: i32 = 1000;

/// Length of the random id of a formula scratch cell.
pub const TEMP_ID_LEN: u32 = 16;

/// Length of the random id of a block or a control-flow scratch cell.
pub const BLOCK_ID_LEN: u32 = 32;

/// The types of the language.
#[derive(Debug, Clone, Copy, PartialEq, Eq, Structural)]
pub enum Type {
    Int,
    Float,
    Bool,
    Str,
    NoneType,
}

impl Type {
    /// The name of the type as it appears in messages.
    pub fn name(&self) -> (r: &'static str)
        ensures
            r@ == type_label(*self),
    {
        match self {
            Type::Int => "Int",
            Type::Float => "Float",
            Type::Bool => "Bool",
            Type::Str => "Str",
            Type::NoneType => "None",
        }
    }
}

pub open spec fn type_label(t: Type) -> Seq<char> {
    match t {
        Type::Int => "Int"@,
        Type::Float => "Float"@,
        Type::Bool => "Bool"@,
        Type::Str => "Str"@,
        Type::NoneType => "None"@,
    }
}

/// Truncating division (rounds toward zero), as integer division does on the machine.
pub open spec fn trunc_div(a: int, b: int) -> int {
    if a >= 0 {
        a / b
    } else {
        -((-a) / b)
    }
}

/// `x` clamped into the range of `i32`.
pub open spec fn clamp_i32(x: int) -> int {
    if x > i32::MAX {
        i32::MAX as int
    } else if x < i32::MIN {
        i32::MIN as int
    } else {
        x
    }
}

/// `x` reduced into the range of `i32` by two's complement wrap-around.
pub open spec fn wrap_i32(x: int) -> int {
    let m = x % 0x1_0000_0000int;
    if m >= 0x8000_0000int {
        m - 0x1_0000_0000int
    } else {
        m
    }
}

/// Clamps an `i64` into the range of `i32`.
pub fn saturate_i32(x: i64) -> (r: i32)
    ensures
        r as int == clamp_i32(x as int),
{
    if x > i32::MAX as i64 {
        i32::MAX
    } else if x < i32::MIN as i64 {
        i32::MIN
    } else {
        x as i32
    }
}

/// The integer part of a fixed-point value (truncated toward zero).
pub fn unmagnify(m: i64) -> (r: i64)
    ensures
        r as int == trunc_div(m as int, 1000),
{
    if m >= 0 {
        m / 1000
    } else {
        let n: i128 = -(m as i128);
        let q: i128 = n / 1000;
        (-q) as i64
    }
}

/// Multiplies by `FLOAT_MAGNIFICATION` with two's complement wrap-around.
pub fn magnify(x: i32) -> (r: i32)
    ensures
        r as int == wrap_i32(x as int * 1000),
{
    let p: i64 = x as i64 * 1000;
    let m: i64 = p % 0x1_0000_0000i64;
    let m2: i64 = if m < 0 { m + 0x1_0000_0000i64 } else { m };
    assert(m2 == (x as int * 1000) % 0x1_0000_0000int);
    if m2 >= 0x8000_0000i64 {
        (m2 - 0x1_0000_0000i64) as i32
    } else {
        m2 as i32
    }
}

} // verus!
