//! Element types of tensors.

use crate::list::Distinct;
use vstd::prelude::*;

verus! {

/// Parameters of a quantized element type. The floating point parameters are held as their
/// bit patterns.
#[derive(Debug, Clone, Copy, PartialEq, Eq, Structural, Hash)]
pub enum QParams {
    MinMax { min_bits: u32, max_bits: u32 },
    ZpScale { zero_point: i32, scale_bits: u32 },
}

/// Type of the elements of a tensor.
#[derive(Debug, Clone, Copy, PartialEq, Eq, Structural, Hash)]
pub enum DatumType {
    Bool,
    U8,
    U16,
    U32,
    U64,
    I8,
    I16,
    I32,
    I64,
    F16,
    F32,
    F64,
    TDim,
    Blob,
    String,
    QI8(QParams),
    QU8(QParams),
    QI32(QParams),
}

impl Distinct for DatumType {
    fn equals(&self, other: &Self) -> (r: bool) {
        *self == *other
    }
}

/// Bytes of one element of a floating point type.
pub open spec fn float_width(dt: DatumType) -> Option<int> {
    match dt {
        DatumType::F16 => Some(2int),
        DatumType::F32 => Some(4int),
        DatumType::F64 => Some(8int),
        _ => None,
    }
}

/// Both are floating point types, and elements of `acc` are wider than those of `dt`.
pub open spec fn widens(dt: DatumType, acc: DatumType) -> bool {
    &&& float_width(dt) is Some
    &&& float_width(acc) is Some
    &&& float_width(dt)->0 < float_width(acc)->0
}

/// A tensor of these elements can live on the device.
pub open spec fn on_device(dt: DatumType) -> bool {
    match dt {
        DatumType::F64 | DatumType::TDim | DatumType::Blob | DatumType::String => false,
        DatumType::QI8(_) | DatumType::QU8(_) | DatumType::QI32(_) => false,
        _ => true,
    }
}

/// Half or single precision numbers.
pub open spec fn is_half_or_single(dt: DatumType) -> bool {
    dt == DatumType::F16 || dt == DatumType::F32
}

impl DatumType {
    /// Whether the elements are floating point numbers.
    pub fn is_float(&self) -> (r: bool)
        ensures
            r == (float_width(*self) is Some),
            r == (*self == DatumType::F16 || *self == DatumType::F32 || *self == DatumType::F64),
    {
        matches!(self, DatumType::F16 | DatumType::F32 | DatumType::F64)
    }

    /// Bytes of one element of a floating point type.
    pub fn size_of(&self) -> (r: usize)
        requires
            float_width(*self) is Some,
        ensures
            r == float_width(*self)->0,
            *self == DatumType::F16 ==> r == 2,
            *self == DatumType::F32 ==> r == 4,
            *self == DatumType::F64 ==> r == 8,
    {
        match self {
            DatumType::F16 => 2,
            DatumType::F32 => 4,
            _ => 8,
        }
    }

    /// Whether a tensor of these elements can live on the device: booleans, integers, and
    /// floating point numbers of up to 32 bits.
    pub fn is_supported_on_device(&self) -> (r: bool)
        ensures
            r == on_device(*self),
            r == !(*self == DatumType::F64 || *self == DatumType::TDim || *self == DatumType::Blob
                || *self == DatumType::String || *self is QI8 || *self is QU8 || *self is QI32),
    {
        match self {
            DatumType::Bool | DatumType::F32 | DatumType::F16 => true,
            DatumType::I8 | DatumType::U8 | DatumType::I16 | DatumType::U16 => true,
            DatumType::I32 | DatumType::U32 | DatumType::I64 | DatumType::U64 => true,
            _ => false,
        }
    }

    /// Whether the elements are half or single precision numbers.
    pub fn is_f16_or_f32(&self) -> (r: bool)
        ensures
            r == is_half_or_single(*self),
            r == (*self == DatumType::F16 || *self == DatumType::F32),
    {
        matches!(self, DatumType::F16 | DatumType::F32)
    }
}

/// A floating point type is wider than those before it in the order half, single and double
/// precision, and no other type is wider or narrower than any.
pub proof fn law_wider_types(dt: DatumType, acc: DatumType)
    ensures
        widens(dt, acc) == ((dt == DatumType::F16 && (acc == DatumType::F32 || acc
            == DatumType::F64)) || (dt == DatumType::F32 && acc == DatumType::F64)),
        float_width(dt) is Some == (dt == DatumType::F16 || dt == DatumType::F32 || dt
            == DatumType::F64),
{
}

/// Tensors of plain numbers of up to 32 bits, of integers of any size and of booleans can live
/// on the device, and no others.
pub proof fn law_types_of_the_device(dt: DatumType)
    ensures
        on_device(dt) == !(dt == DatumType::F64 || dt == DatumType::TDim || dt == DatumType::Blob
            || dt == DatumType::String || dt is QI8 || dt is QU8 || dt is QI32),
        is_half_or_single(dt) == (dt == DatumType::F16 || dt == DatumType::F32),
        is_half_or_single(dt) ==> on_device(dt) && float_width(dt) is Some,
        float_width(dt) is Some && on_device(dt) ==> is_half_or_single(dt),
{
}

} // verus!
