//! What is known of a tensor before it is computed: element type, shape, packing, residence.

use crate::datum::DatumType;
use crate::dim::TDim;
use crate::list::same_list;
use vstd::prelude::*;

verus! {

/// Formats of block-quantized weights.
#[derive(Debug, Clone, Copy, PartialEq, Eq, Structural, Hash)]
pub enum BlockQuantFormat {
    /// Blocks of four-bit values with one half precision scale.
    Q4_0,
    /// Blocks of eight-bit values with one half precision scale and their sum.
    Q8_1,
    /// Blocks of ternary values with one half precision scale.
    Q2_0T,
}

/// The packing of a tensor, as its host side fact tells it.
#[derive(Debug)]
pub enum ExoticFact {
    /// The elements lie plainly in memory.
    Plain,
    /// Block-quantized elements, with the shape of the tensor.
    BlockQuant { format: BlockQuantFormat, shape: Vec<usize> },
    /// Any other packing, numbered.
    Other(u32),
}

/// An [`ExoticFact`] by value.
pub enum ExoticFactView {
    Plain,
    BlockQuant { format: BlockQuantFormat, shape: Seq<usize> },
    Other(u32),
}

impl View for ExoticFact {
    type V = ExoticFactView;

    open spec fn view(&self) -> ExoticFactView {
        match *self {
            ExoticFact::Plain => ExoticFactView::Plain,
            ExoticFact::BlockQuant { format, shape } => ExoticFactView::BlockQuant {
                format,
                shape: shape@,
            },
            ExoticFact::Other(id) => ExoticFactView::Other(id),
        }
    }
}

impl ExoticFact {
    /// An equal packing.
    pub fn duplicate(&self) -> (r: Self)
        ensures
            r@ == self@,
    {
        match self {
            ExoticFact::Plain => ExoticFact::Plain,
            ExoticFact::BlockQuant { format, shape } => {
                let shape2 = shape.clone();
                assert(shape2@ =~= shape@);
                ExoticFact::BlockQuant { format: *format, shape: shape2 }
            },
            ExoticFact::Other(id) => ExoticFact::Other(*id),
        }
    }
}

impl ExoticFact {
    /// Whether the two packings are the same.
    pub fn same(&self, other: &Self) -> (r: bool)
        ensures
            r == (self@ == other@),
    {
        match (self, other) {
            (ExoticFact::Plain, ExoticFact::Plain) => true,
            (
                ExoticFact::BlockQuant { format: a, shape: x },
                ExoticFact::BlockQuant { format: b, shape: y },
            ) => *a == *b && same_list(x, y),
            (ExoticFact::Other(a), ExoticFact::Other(b)) => *a == *b,
            _ => false,
        }
    }
}

/// Where a tensor on the device comes from.
#[derive(Debug, Clone, Copy, PartialEq, Eq, Structural, Hash)]
pub enum DeviceTensorOrigin {
    /// Put out by an operator of the device.
    FromDevice,
    /// Built from a tensor of the host.
    FromHost,
}

/// The device side of the fact of a tensor that lives there.
#[derive(Debug, Clone, Copy, PartialEq, Eq, Structural, Hash)]
pub struct Residence {
    pub origin: DeviceTensorOrigin,
    pub state_owned: bool,
}

/// What is known of a tensor. A tensor with a `device` lives on the device; `exotic` is
/// then the packing that it has there.
#[derive(Debug)]
pub struct TypedFact {
    pub datum_type: DatumType,
    pub shape: Vec<TDim>,
    pub exotic: ExoticFact,
    pub device: Option<Residence>,
}

/// A [`TypedFact`] by value.
pub struct TypedFactView {
    pub datum_type: DatumType,
    pub shape: Seq<TDim>,
    pub exotic: ExoticFactView,
    pub device: Option<Residence>,
}

impl View for TypedFact {
    type V = TypedFactView;

    open spec fn view(&self) -> TypedFactView {
        TypedFactView {
            datum_type: self.datum_type,
            shape: self.shape@,
            exotic: self.exotic@,
            device: self.device,
        }
    }
}

/// The facts of a list by value.
pub open spec fn fact_views(facts: Seq<TypedFact>) -> Seq<TypedFactView> {
    facts.map_values(|f: TypedFact| f@)
}

impl TypedFactView {
    /// The number of axes.
    pub open spec fn rank(self) -> nat {
        self.shape.len()
    }

    /// The tensor is block-quantized in the format, on the host.
    pub open spec fn is_quant(self, format: BlockQuantFormat) -> bool {
        self.device is None && (self.exotic matches ExoticFactView::BlockQuant { format: f, .. }
            && f == format)
    }

    /// The fact of the same tensor once it has been moved to the host.
    pub open spec fn to_host(self) -> TypedFactView {
        TypedFactView { device: None, ..self }
    }

    /// The fact of the same tensor once it has been moved to the device. One that is there
    /// already stays as it is.
    pub open spec fn to_device(self) -> TypedFactView {
        if self.device is Some {
            self
        } else {
            TypedFactView {
                device: Some(
                    Residence { origin: DeviceTensorOrigin::FromHost, state_owned: false },
                ),
                ..self
            }
        }
    }
}

impl TypedFact {
    /// The number of axes.
    pub fn rank(&self) -> (r: usize)
        ensures
            r == self@.rank(),
            r == self.shape@.len(),
    {
        self.shape.len()
    }

    /// Whether the tensor is block-quantized in the format, on the host.
    pub fn as_quant_fact(&self, format: BlockQuantFormat) -> (r: bool)
        ensures
            r == self@.is_quant(format),
            r == (self.device is None && (self.exotic matches ExoticFact::BlockQuant {
                format: f,
                ..
            } && f == format)),
    {
        if self.device.is_some() {
            return false;
        }
        match &self.exotic {
            ExoticFact::BlockQuant { format: f, .. } => *f == format,
            _ => false,
        }
    }

    /// Whether the elements are half or single precision numbers.
    pub fn is_f16_or_f32(&self) -> (r: bool)
        ensures
            r == crate::datum::is_half_or_single(self@.datum_type),
    {
        self.datum_type.is_f16_or_f32()
    }

    /// Whether the two facts are the same.
    pub fn same(&self, other: &Self) -> (r: bool)
        ensures
            r == (self@ == other@),
            r == (self.datum_type == other.datum_type && self.shape@ == other.shape@
                && self.exotic@ == other.exotic@ && self.device == other.device),
    {
        self.datum_type == other.datum_type && self.device == other.device && same_list(
            &self.shape,
            &other.shape,
        ) && self.exotic.same(&other.exotic)
    }

    /// An equal fact.
    pub fn duplicate(&self) -> (r: Self)
        ensures
            r@ == self@,
            r.datum_type == self.datum_type,
            r.shape@ == self.shape@,
            r.exotic@ == self.exotic@,
            r.device == self.device,
    {
        let shape = self.shape.clone();
        assert(shape@ =~= self.shape@);
        TypedFact {
            datum_type: self.datum_type,
            shape,
            exotic: self.exotic.duplicate(),
            device: self.device,
        }
    }

    /// The fact of the same tensor once it has been moved to the device.
    pub fn to_device(&self) -> (r: Self)
        ensures
            r@ == self@.to_device(),
            r.datum_type == self.datum_type,
            r.shape@ == self.shape@,
            r.exotic@ == self.exotic@,
            r.device == Some(
                match self.device {
                    Some(residence) => residence,
                    None => Residence { origin: DeviceTensorOrigin::FromHost, state_owned: false },
                },
            ),
    {
        let mut r = self.duplicate();
        if r.device.is_none() {
            r.device = Some(
                Residence { origin: DeviceTensorOrigin::FromHost, state_owned: false },
            );
        }
        r
    }
}

} // verus!
