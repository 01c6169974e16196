use std::cell::RefCell;
use std::rc::Rc;
use std::str::FromStr;
use std::sync::Arc;
use tract_metal::command_buffer::TCommandBuffer;
use tract_metal::datum::DatumType;
use tract_metal::dim::TDim;
use tract_metal::fact::{
    BlockQuantFormat, DeviceTensorOrigin, ExoticFact, Residence, TypedFact,
};
use tract_metal::gemm::{GemmSupport, MetalGemmImplKind};
use tract_metal::model::{Const, PrefixMatMul, Tensor, TypedOp};
use tract_metal::node::{convert_const, AlreadyOnDevice, DeviceSyncKind, Packing, Translation};
use tract_metal::reduce::{split_multi_axis_reduce, Reduce, Reducer};
use tract_metal::sdpa::{
    cast_sdpa_mask_to_query_dt, flatten_unfused_sdpa, sdpa_decision, SdpaDecision, SdpaInput,
};
use tract_metal::transform::{after_pass, MetalTransform, Pass, UnknownBackend};
use tract_metal::translator::{all_supported_on_device, try_make_metal_op, MetalOpTranslator};

fn fact(datum_type: DatumType, shape: &[i64]) -> TypedFact {
    TypedFact {
        datum_type,
        shape: shape.iter().map(|d| TDim::Val(*d)).collect(),
        exotic: ExoticFact::Plain,
        device: None,
    }
}

#[test]
fn passes_of_each_phase() {
    let t = MetalTransform::default();
    let zero = [Pass::InitContext, Pass::RewireSdpa, Pass::EinsumToPrefixMatmul];
    assert_eq!(t.transform_up_to_phase(0, Some("5")), zero);
    let one = [Pass::RewriteMatmul, Pass::RewriteCore, Pass::RepackExperts];
    assert_eq!(t.transform_up_to_phase(1, None), [&zero[..], &one[..]].concat());
    assert_eq!(
        t.transform_up_to_phase(1, Some("5")),
        [&zero[..], &one[..], &[Pass::DumpNodes][..]].concat()
    );
    assert_eq!(
        t.transform_up_to_phase(2, Some("55")),
        [&zero[..], &one[..], &[Pass::Translate][..]].concat()
    );
    let three = [Pass::Translate, Pass::FuseMoveAxis, Pass::FuseAxisOp, Pass::RewireSyncs];
    let all = [&zero[..], &one[..], &three[..]].concat();
    assert_eq!(t.transform_up_to_phase(3, None), all);
    assert_eq!(t.transform_up_to_phase(usize::MAX, None), all);
    assert_eq!(t.transform(None), [&[Pass::LinkTranslators][..], &all[..]].concat());
}

#[test]
fn a_pass_that_fails_keeps_the_graph() {
    assert_eq!(after_pass(vec![1, 2], Ok::<_, u8>(vec![3])), (vec![3], Ok(())));
    assert_eq!(after_pass(vec![1, 2], Err(7)), (vec![1, 2], Err(7)));
    let t = MetalTransform::default();
    for dump in [None, Some("5")] {
        for stop in 2..5 {
            let passes = t.transform_up_to_phase(stop, dump);
            let at = passes.iter().position(|p| *p == Pass::Translate).unwrap();
            assert_eq!(passes[..at], t.transform_up_to_phase(1, dump));
        }
    }
}

#[test]
fn rules_of_the_passes() {
    assert_eq!(
        Pass::RewireSdpa.rules(),
        ["cast-sdpa-mask-to-query-dt", "flatten-unfused-sdpa"]
    );
    assert_eq!(
        Pass::RewriteMatmul.rules(),
        ["untranspose-matmul-output", "add-broadcast-pre-matmul"]
    );
    assert_eq!(
        Pass::RewriteCore.rules(),
        [
            "rewrite_kernel_conv_in_oihw",
            "rewrite_conv_with_n_axis",
            "remove_rms_norm_cast",
            "split_multi_axis_reduce"
        ]
    );
    assert_eq!(Pass::FuseMoveAxis.rules(), ["fuse_move_axis"]);
    assert_eq!(Pass::FuseAxisOp.rules(), ["fuse_axis_op"]);
    assert!(Pass::Translate.rules().is_empty());
}

#[test]
fn transforms_by_name() {
    for kind in MetalGemmImplKind::variants() {
        let t = MetalTransform::from_str(kind.to_str()).unwrap();
        assert_eq!(t.gemm_impl, Some(kind));
    }
    assert_eq!(MetalTransform::from_str("").unwrap(), MetalTransform::default());
    assert_eq!("ggml".parse::<MetalTransform>().unwrap().gemm_impl, Some(MetalGemmImplKind::Ggml));
    assert_eq!(MetalTransform::from_str("MLX").unwrap_err(), UnknownBackend);
    assert_eq!(MetalTransform::default().name(), "metal-transform");
}

/// What the translation of a node asks, and what it is answered.
struct Answers {
    support: bool,
    resize: Result<Option<u8>, &'static str>,
    made: Result<Option<u16>, &'static str>,
    facts_ok: bool,
}

const NOTHING: Answers = Answers { support: false, resize: Ok(None), made: Ok(None), facts_ok: true };

fn translate(
    op: &TypedOp,
    inputs: &[TypedFact],
    target: &[TypedFact],
    answers: Answers,
) -> (Result<Translation<u8, u16>, &'static str>, Vec<&'static str>) {
    let copy = |facts: &[TypedFact]| facts.iter().map(|f| f.duplicate()).collect::<Vec<_>>();
    let asked = RefCell::new(vec![]);
    let r = MetalTransform::default().translate_node(
        "n",
        op,
        &copy(inputs),
        &copy(target),
        |_facts| {
            asked.borrow_mut().push("support");
            GemmSupport { mlx: answers.support, mfa: false, ggml: false, ggml_swapped: false }
        },
        || {
            asked.borrow_mut().push("resize");
            answers.resize
        },
        || {
            asked.borrow_mut().push("make");
            answers.made
        },
        |_op, facts| {
            asked.borrow_mut().push("facts");
            assert!(facts.iter().all(|f| f.device.is_some()));
            answers.facts_ok
        },
    );
    (r, asked.into_inner())
}

fn matmul(transpose_c: bool) -> TypedOp {
    TypedOp::PrefixMatMul(PrefixMatMul {
        transpose_a: false,
        transpose_b: false,
        transpose_c,
        quantize_output: None,
        operating_dt: None,
    })
}

#[test]
fn products_are_translated() {
    let facts = [fact(DatumType::F32, &[2, 3]), fact(DatumType::F32, &[3, 2])];
    let (r, asked) =
        translate(&matmul(false), &facts, &facts, Answers { support: true, ..NOTHING });
    let r = r.unwrap();
    assert!(matches!(r, Translation::Matmul));
    assert_eq!(r.input_sync(), Some(DeviceSyncKind::ToDevice));
    assert!(r.syncs_outputs());
    assert_eq!(asked, ["support"]);
    let (r, asked) = translate(&matmul(false), &facts, &facts, NOTHING);
    assert!(matches!(r, Ok(Translation::Cpu)));
    assert_eq!(asked, ["support", "resize", "make"]);
    let (r, asked) =
        translate(&matmul(true), &facts, &facts, Answers { support: true, ..NOTHING });
    assert!(matches!(r, Ok(Translation::Cpu)));
    assert_eq!(asked, ["resize", "make"]);
}

#[test]
fn convolutions_are_translated() {
    let float = [fact(DatumType::F16, &[1]), fact(DatumType::I8, &[1])];
    let (r, asked) = translate(&TypedOp::Conv, &float, &float, NOTHING);
    assert!(matches!(r, Ok(Translation::Conv)));
    assert!(asked.is_empty());
    let int = [fact(DatumType::I8, &[1])];
    let (r, _) = translate(&TypedOp::Conv, &int, &int, NOTHING);
    assert!(matches!(r, Ok(Translation::Cpu)));
    let wide = [fact(DatumType::F32, &[1]), fact(DatumType::F64, &[1])];
    let (r, _) = translate(&TypedOp::Conv, &wide, &wide, NOTHING);
    assert!(matches!(r, Ok(Translation::Cpu)));
}

#[test]
fn resizes_are_translated() {
    let host = [fact(DatumType::F32, &[1])];
    let device = [host[0].to_device()];
    let resize = || Answers { resize: Ok(Some(9)), ..NOTHING };
    match translate(&TypedOp::Other(1), &host, &host, resize()).0 {
        Ok(Translation::Resize { op: 9, to_device: Some(name) }) => {
            assert_eq!(name, "n.to-device-0")
        }
        other => panic!("{other:?}"),
    }
    let (r, asked) = translate(&TypedOp::Other(1), &host, &device, resize());
    let r = r.unwrap();
    assert!(matches!(r, Translation::Resize { op: 9, to_device: None }));
    assert_eq!(r.input_sync(), None);
    assert!(r.syncs_outputs());
    assert_eq!(asked, ["resize"]);
    let failed = Answers { resize: Err("resize"), ..NOTHING };
    assert_eq!(translate(&TypedOp::Other(1), &host, &host, failed).0.unwrap_err(), "resize");
}

#[test]
fn constants_are_translated() {
    let konst = |datum_type| {
        let val = Arc::new(Tensor::Other { datum_type, id: 0 });
        TypedOp::Const(Const { val, exotic: None })
    };
    let (r, asked) = translate(&konst(DatumType::I64), &[], &[], NOTHING);
    assert!(matches!(r, Ok(Translation::Const)));
    assert_eq!(asked, ["resize"]);
    let (r, asked) = translate(&konst(DatumType::TDim), &[], &[], NOTHING);
    assert!(matches!(r, Ok(Translation::Cpu)));
    assert_eq!(asked, ["resize", "make"]);
}

#[test]
fn other_operators_are_translated() {
    let facts = [fact(DatumType::F32, &[4]), fact(DatumType::F32, &[4]).to_device()];
    let made = |facts_ok| Answers { made: Ok(Some(77)), facts_ok, ..NOTHING };
    let (r, asked) = translate(&TypedOp::Other(1), &facts, &facts, made(true));
    assert!(matches!(r, Ok(Translation::Gpu(77))));
    assert_eq!(asked, ["resize", "make", "facts"]);
    let (r, _) = translate(&TypedOp::Other(1), &facts, &facts, made(false));
    let r = r.unwrap();
    assert!(matches!(r, Translation::Cpu));
    assert_eq!(r.input_sync(), Some(DeviceSyncKind::ToHost));
    assert!(!r.syncs_outputs());
    let failed = Answers { made: Err("make"), ..NOTHING };
    assert_eq!(translate(&TypedOp::Other(1), &facts, &facts, failed).0.unwrap_err(), "make");
}

#[test]
fn constants_move_to_the_device() {
    let val = fact(DatumType::F32, &[2, 32]);
    let moved = convert_const(&val, &None).unwrap();
    let from_host = Residence { origin: DeviceTensorOrigin::FromHost, state_owned: false };
    assert_eq!(moved.device, Some(from_host));
    let exotic =
        || ExoticFact::BlockQuant { format: BlockQuantFormat::Q4_0, shape: vec![2, 32] };
    let packed = convert_const(&val, &Some(Packing { exotic: exotic(), device: None })).unwrap();
    assert!(packed.exotic.same(&exotic()));
    assert_eq!(packed.device, Some(from_host));
    assert_eq!(convert_const(&moved, &None).unwrap_err(), AlreadyOnDevice);
    let twice = Some(Packing { exotic: exotic(), device: Some(from_host) });
    assert_eq!(convert_const(&val, &twice).unwrap_err(), AlreadyOnDevice);
}

type TryMake = fn(&Vec<u8>, &u8) -> Result<Option<u32>, &'static str>;

#[test]
fn translators_are_asked_in_order() {
    let by_one: TryMake = |s, n| Ok(Some(s[*n as usize] as u32 + 1));
    let by_two: TryMake = |s, n| Ok(Some(s[*n as usize] as u32 + 2));
    let decline: TryMake = |_, _| Ok(None);
    let fail: TryMake = |_, _| Err("translator");
    let list = |l: &[(u64, TryMake)]| {
        l.iter()
            .map(|(type_id, try_make)| MetalOpTranslator { type_id: *type_id, try_make: *try_make })
            .collect::<Vec<_>>()
    };
    let source = vec![10, 20];
    let facts = vec![fact(DatumType::F32, &[1])];
    let ask = |facts: &Vec<TypedFact>, copy: TryMake, l: &[(u64, TryMake)]| {
        try_make_metal_op(&source, &1, 5, facts, copy, &list(l))
    };
    let all = [(4, fail), (5, decline), (5, by_two), (5, fail)];
    assert_eq!(ask(&facts, decline, &all), Ok(Some(22)));
    assert_eq!(ask(&facts, by_one, &all), Ok(Some(21)));
    assert_eq!(ask(&facts, fail, &all), Err("translator"));
    assert_eq!(ask(&facts, decline, &[(5, fail), (5, by_one)]), Err("translator"));
    assert_eq!(ask(&facts, decline, &[(4, by_one), (5, decline)]), Ok(None));
    let host_only = vec![fact(DatumType::F32, &[1]), fact(DatumType::String, &[1])];
    assert_eq!(ask(&host_only, by_one, &all), Ok(None));
    assert!(!all_supported_on_device(&host_only));
    assert!(all_supported_on_device(&vec![]));
}

#[test]
fn masks_are_cast_to_the_type_of_the_query() {
    let facts = |q, mask| {
        vec![fact(q, &[1]), fact(q, &[1]), fact(q, &[1]), fact(mask, &[1])]
    };
    let (f16, f32) = (DatumType::F16, DatumType::F32);
    let cast = cast_sdpa_mask_to_query_dt("att", &facts(f16, f32)).unwrap();
    assert_eq!(cast.name, "att.mask_cast");
    assert_eq!(cast.to, f16);
    let taps = [SdpaInput::Tap(0), SdpaInput::Tap(1), SdpaInput::Tap(2), SdpaInput::CastMask];
    assert_eq!(cast.inputs, taps);
    assert!(cast_sdpa_mask_to_query_dt("att", &facts(f16, f16)).is_none());
    assert!(cast_sdpa_mask_to_query_dt("att", &facts(f16, DatumType::Bool)).is_none());
    assert!(cast_sdpa_mask_to_query_dt("att", &facts(DatumType::I8, f16)).is_none());
    let mut three = facts(f16, f32);
    three.pop();
    assert!(cast_sdpa_mask_to_query_dt("att", &three).is_none());
}

#[test]
fn attention_is_taken_apart_if_no_kernel_takes_it() {
    assert_eq!(sdpa_decision(true, false), SdpaDecision::Keep);
    assert_eq!(sdpa_decision(false, true), SdpaDecision::Keep);
    assert_eq!(sdpa_decision(false, false), SdpaDecision::Explode);
    assert_eq!(flatten_unfused_sdpa(|| true, || panic!("asked")), SdpaDecision::Keep);
    assert_eq!(flatten_unfused_sdpa(|| false, || true), SdpaDecision::Keep);
    assert_eq!(flatten_unfused_sdpa(|| false, || false), SdpaDecision::Explode);
}

#[test]
fn reductions_are_split() {
    let op = |axes: &[usize], reducer| Reduce { axes: axes.to_vec(), reducer };
    let steps = split_multi_axis_reduce("r", &op(&[3, 0, 2], Reducer::Sum)).unwrap();
    let got: Vec<_> = steps.iter().map(|s| (s.name.as_str(), s.op.axes.as_slice())).collect();
    assert_eq!(got, [("r.axis_0", &[3][..]), ("r.axis_1", &[2][..]), ("r.axis_2", &[0][..])]);
    assert!(steps.iter().all(|s| s.op.reducer == Reducer::Sum));
    for reducer in [Reducer::Prod, Reducer::Min, Reducer::Max, Reducer::Any, Reducer::All] {
        assert!(split_multi_axis_reduce("r", &op(&[0, 1], reducer)).is_some());
    }
    for reducer in [Reducer::MeanOfSquares, Reducer::ArgMax(true), Reducer::ArgMin(false)] {
        assert!(split_multi_axis_reduce("r", &op(&[0, 1], reducer)).is_none());
    }
    assert!(split_multi_axis_reduce("r", &op(&[1], Reducer::Sum)).is_none());
    let many: Vec<usize> = (0..12).collect();
    let steps = split_multi_axis_reduce("r", &op(&many, Reducer::Max)).unwrap();
    assert_eq!(steps[11].name, "r.axis_11");
    assert_eq!(steps[11].op.axes, [0]);
}

#[test]
fn chained_reductions_reduce_all() {
    // Rows, columns and layers of a small tensor, summed one axis after the other.
    let shape = [2usize, 3, 4];
    let data: Vec<i64> = (0..24).map(|i| i * i - 5 * i).collect();
    let at = |d: &Vec<i64>, s: &[usize], p: [usize; 3]| d[(p[0] * s[1] + p[1]) * s[2] + p[2]];
    let op = Reduce { axes: vec![0, 1, 2], reducer: Reducer::Sum };
    let (mut current, mut extents) = (data.clone(), shape);
    for step in split_multi_axis_reduce("r", &op).unwrap() {
        let axis = step.op.axes[0];
        let mut left = extents;
        left[axis] = 1;
        let mut next = vec![];
        for i in 0..left[0] {
            for j in 0..left[1] {
                for k in 0..left[2] {
                    let mut sum = 0;
                    for n in 0..extents[axis] {
                        let mut p = [i, j, k];
                        p[axis] = n;
                        sum += at(&current, &extents, p);
                    }
                    next.push(sum);
                }
            }
        }
        current = next;
        extents = left;
    }
    assert_eq!(current, [data.iter().sum::<i64>()]);
    assert_eq!(extents, [1, 1, 1]);
}

#[test]
fn command_buffers_have_one_encoder() {
    let made = RefCell::new(0);
    let mut buffer = TCommandBuffer::new(vec![7u8], |b: &Vec<u8>| {
        *made.borrow_mut() += 1;
        Rc::new(RefCell::new(vec![b[0] as u32]))
    });
    buffer.encode(|e: &RefCell<Vec<u32>>| e.borrow_mut().push(8));
    let moved = vec![9u32];
    buffer.encode(|e: &RefCell<Vec<u32>>| e.borrow_mut().extend(moved));
    assert_eq!(*buffer.encoder().borrow(), [7, 8, 9]);
    assert_eq!(*made.borrow(), 1);
    assert_eq!(buffer.len(), 1);
    buffer.push(1);
    assert_eq!(*buffer, [7, 1]);
    assert_eq!(*buffer.encoder().borrow(), [7, 8, 9]);
}

#[test]
fn clones_of_command_buffers_share_the_encoder() {
    let made = RefCell::new(0);
    let buffer = TCommandBuffer::new(Rc::new(3u8), |b: &Rc<u8>| {
        *made.borrow_mut() += 1;
        Rc::new(RefCell::new(vec![**b as u32]))
    });
    let clone = buffer.clone();
    assert!(Rc::ptr_eq(buffer.encoder(), clone.encoder()));
    assert!(Rc::ptr_eq(&*buffer, &*clone));
    clone.encode(|e: &RefCell<Vec<u32>>| e.borrow_mut().push(4));
    assert_eq!(*buffer.encoder().borrow(), [3, 4]);
    assert_eq!(*made.borrow(), 1);
}
