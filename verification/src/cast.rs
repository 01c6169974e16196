//! Casts of tensors on the device.

use crate::datum::DatumType;
use crate::dim::TDim;
use crate::fact::{
    DeviceTensorOrigin, ExoticFact, ExoticFactView, Residence, TypedFact, TypedFactView,
};
use crate::list::lists;
use vstd::prelude::*;

verus! {

/// The cast kernel: the element types that it casts from and to.
#[derive(Debug)]
pub struct CastKernel {
    pub supported: Vec<DatumType>,
}

impl CastKernel {
    /// The kernel casts from and to the element type.
    pub open spec fn supports(&self, dt: DatumType) -> bool {
        self.supported@.contains(dt)
    }

    /// Whether the kernel casts from and to the element type.
    pub fn is_supported_dt(&self, dt: DatumType) -> (r: bool)
        ensures
            r == self.supports(dt),
            r == self.supported@.contains(dt),
    {
        lists(&self.supported, &dt)
    }
}

/// A cast operator that any device shares.
#[derive(Debug, Clone, Copy, PartialEq, Eq, Structural)]
pub struct GpuCast {
    pub to: DatumType,
}

/// The cast operator to the element type, where the kernel takes it.
pub fn metal_cast_new(kernel: &CastKernel, to: DatumType) -> (r: Option<GpuCast>)
    ensures
        r == (if kernel.supports(to) {
            Some(GpuCast { to })
        } else {
            None
        }),
        r is Some == kernel.supported@.contains(to),
        r matches Some(cast) ==> cast.to == to,
{
    if kernel.is_supported_dt(to) {
        Some(GpuCast { to })
    } else {
        None
    }
}

/// A cast to an element type.
#[derive(Debug, Clone, Copy, PartialEq, Eq, Structural, Hash)]
pub struct MetalCast {
    pub to: DatumType,
}

/// A tensor handed to an operator, with the element type that it has on the device if that
/// is where it lives.
pub struct Argument<T> {
    pub value: T,
    pub on_device: Option<DatumType>,
}

/// Why a cast cannot be computed.
#[derive(Debug, Clone, Copy, PartialEq, Eq, Structural)]
pub enum CastError<E> {
    /// There is not one input, but as many as told.
    Arity(usize),
    /// The input is not on the device.
    NotOnDevice,
    /// The kernel failed.
    Dispatch(E),
}

/// Some inputs are on the device and some are not.
#[derive(Debug, Clone, Copy, PartialEq, Eq, Structural)]
pub struct InconsistentFacts;

/// Every fact is that of a tensor on the device.
pub open spec fn all_on_device(facts: Seq<TypedFact>) -> bool {
    forall|i: int| 0 <= i < facts.len() ==> (#[trigger] facts[i])@.device is Some
}

/// Every fact is that of a tensor on the host.
pub open spec fn all_on_host(facts: Seq<TypedFact>) -> bool {
    forall|i: int| 0 <= i < facts.len() ==> (#[trigger] facts[i])@.device is None
}

/// The fact of a tensor that lies plainly in memory.
pub open spec fn plain_fact(
    dt: DatumType,
    shape: Seq<TDim>,
    device: Option<Residence>,
) -> TypedFactView {
    TypedFactView { datum_type: dt, shape, exotic: ExoticFactView::Plain, device }
}

impl MetalCast {
    /// Whether the kernel casts to the element type.
    pub fn is_supported_dt(kernel: &CastKernel, dt: DatumType) -> (r: bool)
        ensures
            r == kernel.supports(dt),
    {
        kernel.is_supported_dt(dt)
    }

    /// The cast to the element type, where the kernel takes it.
    pub fn new(kernel: &CastKernel, to: DatumType) -> (r: Option<Self>)
        ensures
            r == (if kernel.supports(to) {
                Some(MetalCast { to })
            } else {
                None
            }),
    {
        if Self::is_supported_dt(kernel, to) {
            Some(MetalCast { to })
        } else {
            None
        }
    }

    /// The name of the operator.
    pub fn name(&self) -> (r: &'static str)
        ensures
            r@ == "MetalCast"@,
    {
        "MetalCast"
    }

    /// The operator holds no state.
    pub fn is_stateless(&self) -> (r: bool)
        ensures
            r,
    {
        true
    }

    /// Casts the one input, which must be on the device. One that has the element type
    /// already is handed back as it is; any other goes to `dispatch_eval`, together with the
    /// element type.
    pub fn eval<T, E, Dispatch>(&self, inputs: Vec<Argument<T>>, dispatch_eval: Dispatch) -> (r:
        Result<Vec<T>, CastError<E>>) where Dispatch: FnOnce(T, DatumType) -> Result<T, E>
        requires
            inputs@.len() == 1 && inputs@[0].on_device is Some && inputs@[0].on_device != Some(
                self.to,
            ) ==> call_requires(dispatch_eval, (inputs@[0].value, self.to)),
        ensures
            inputs@.len() != 1 ==> r == Err::<Vec<T>, CastError<E>>(
                CastError::Arity(inputs@.len() as usize),
            ),
            inputs@.len() == 1 ==> match inputs@[0].on_device {
                None => r == Err::<Vec<T>, CastError<E>>(CastError::NotOnDevice),
                Some(dt) => if dt == self.to {
                    r matches Ok(out) && out@ == seq![inputs@[0].value]
                } else {
                    exists|cast: Result<T, E>|
                        {
                            &&& #[trigger] call_ensures(
                                dispatch_eval,
                                (inputs@[0].value, self.to),
                                cast,
                            )
                            &&& match cast {
                                Ok(t) => r matches Ok(out) && out@ == seq![t],
                                Err(e) => r == Err::<Vec<T>, CastError<E>>(CastError::Dispatch(e)),
                            }
                        }
                },
            },
    {
        let mut inputs = inputs;
        let n = inputs.len();
        if n != 1 {
            return Err(CastError::Arity(n));
        }
        match inputs.pop() {
            None => Err(CastError::Arity(n)),
            Some(input) => match input.on_device {
                None => Err(CastError::NotOnDevice),
                Some(dt) => {
                    if dt == self.to {
                        let out = vec![input.value];
                        assert(out@ =~= seq![input.value]);
                        Ok(out)
                    } else {
                        match dispatch_eval(input.value, self.to) {
                            Ok(t) => {
                                let out = vec![t];
                                assert(out@ =~= seq![t]);
                                Ok(out)
                            },
                            Err(e) => Err(CastError::Dispatch(e)),
                        }
                    }
                },
            },
        }
    }

    /// What is known of the result of the cast: the element type, in the shape of the first
    /// input, on the device if the inputs are there.
    pub fn output_facts(&self, inputs: &Vec<TypedFact>) -> (r: Result<
        Vec<TypedFact>,
        InconsistentFacts,
    >)
        requires
            inputs@.len() >= 1,
        ensures
            r is Err == (!all_on_device(inputs@) && !all_on_host(inputs@)),
            r matches Ok(out) ==> out@.len() == 1 && out@[0]@ == plain_fact(
                self.to,
                inputs@[0]@.shape,
                if all_on_device(inputs@) {
                    Some(Residence { origin: DeviceTensorOrigin::FromDevice, state_owned: false })
                } else {
                    None
                },
            ),
            r is Err == exists|i: int, j: int|
                0 <= i < inputs@.len() && 0 <= j < inputs@.len() && (
                #[trigger] inputs@[i]).device is Some && (#[trigger] inputs@[j]).device is None,
            r matches Ok(out) ==> {
                &&& out@[0].datum_type == self.to
                &&& out@[0].shape@ == inputs@[0].shape@
                &&& out@[0].exotic is Plain
                &&& out@[0].device is Some == inputs@[0].device is Some
                &&& out@[0].device matches Some(residence) ==> residence.origin
                    == DeviceTensorOrigin::FromDevice && !residence.state_owned
            },
    {
        let first = inputs[0].device.is_some();
        let mut i: usize = 1;
        while i < inputs.len()
            invariant
                1 <= i <= inputs@.len(),
                first == (inputs@[0].device is Some),
                forall|j: int| 0 <= j < i ==> (#[trigger] inputs@[j])@.device is Some == first,
            decreases inputs@.len() - i,
        {
            if inputs[i].device.is_some() != first {
                assert((inputs@[i as int])@.device is Some != (inputs@[0])@.device is Some);
                return Err(InconsistentFacts);
            }
            i += 1;
        }
        assert(inputs@[0]@.device is Some == first);
        let shape = inputs[0].shape.clone();
        assert(shape@ =~= inputs@[0].shape@);
        let device = if first {
            Some(Residence { origin: DeviceTensorOrigin::FromDevice, state_owned: false })
        } else {
            None
        };
        let mut out: Vec<TypedFact> = Vec::new();
        out.push(TypedFact { datum_type: self.to, shape, exotic: ExoticFact::Plain, device });
        Ok(out)
    }
}

} // verus!
