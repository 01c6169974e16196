use std::sync::Arc;
use tract_core::tract_linalg::block_quant::{BlockQuant, Q4_0};
use tract_metal::datum::DatumType;
use tract_metal::dim::TDim;
use tract_metal::fact::{BlockQuantFormat, ExoticFact, TypedFact};
use tract_metal::flags::{env_flag, moe_sync_after_dispatch};
use tract_metal::model::{
    Const, InletId, Outlet, OutletId, Tensor, TypedModel, TypedNode, TypedOp,
};
use tract_metal::moe::{
    moe_input_indexes, q40_moe_activation_supported, q40_moe_facts_supported, ExpertLayout,
    GateMode, MoeFfn, MoeInputIndexes,
};
use tract_metal::repack::{
    is_ready, repack_canonical_q40_moe_experts, repack_decision, RepackDecision,
};
use tract_metal::weights::{transpose_block_quant_experts, BlockQuantTensor, TransposeError};

fn plain(datum_type: DatumType, shape: &[usize]) -> TypedFact {
    TypedFact {
        datum_type,
        shape: shape.iter().map(|d| TDim::Val(*d as i64)).collect(),
        exotic: ExoticFact::Plain,
        device: None,
    }
}

fn q40(shape: &[usize]) -> TypedFact {
    TypedFact {
        exotic: ExoticFact::BlockQuant { format: BlockQuantFormat::Q4_0, shape: shape.to_vec() },
        ..plain(DatumType::F32, shape)
    }
}

fn wire(
    model: &mut TypedModel,
    name: &str,
    op: TypedOp,
    inputs: &[OutletId],
    fact: TypedFact,
) -> OutletId {
    let node = model.nodes.len();
    for (slot, input) in inputs.iter().enumerate() {
        model.nodes[input.node].outputs[input.slot].successors.push(InletId { node, slot });
    }
    model.nodes.push(TypedNode {
        name: name.to_string(),
        inputs: inputs.to_vec(),
        op,
        outputs: vec![Outlet { fact, successors: vec![] }],
    });
    OutletId { node, slot: 0 }
}

fn q40_tensor(shape: &[usize], data: &[f32]) -> BlockQuantTensor {
    assert_eq!(shape[shape.len() - 1] % Q4_0.block_len(), 0);
    BlockQuantTensor {
        format: BlockQuantFormat::Q4_0,
        datum_type: DatumType::F32,
        shape: shape.to_vec(),
        packed: Q4_0.quant_f32(data).unwrap().as_bytes().to_vec(),
    }
}

fn add_q40_const(model: &mut TypedModel, name: &str, shape: &[usize], data: &[f32]) -> OutletId {
    let tensor = q40_tensor(shape, data);
    let fact = tensor.fact();
    let exotic = tensor.exotic_fact();
    let op = Const { val: Arc::new(Tensor::BlockQuant(tensor)), exotic: Some(exotic) };
    wire(model, name, TypedOp::Const(op), &[], fact)
}

/// Bias-free SwiGLU experts in the layout asked for. The widths of the model and of the hidden
/// layer differ, so that a transposition gone wrong shows in the shapes.
fn build_qwen_moe(layout: ExpertLayout, activation: &str, tokens: usize) -> TypedModel {
    let (d_model, d_hidden, experts, k) = (64, 96, 8, 2);
    let mut rng_state: u64 = 1717;
    let mut make = |shape: &[usize]| -> Vec<f32> {
        let n: usize = shape.iter().product();
        (0..n)
            .map(|_| {
                rng_state = rng_state.wrapping_mul(6364136223846793005).wrapping_add(1);
                (((rng_state >> 33) as f32 / (1u64 << 31) as f32) - 1.0) * 0.5
            })
            .collect()
    };
    let _wg_data = make(&[experts, d_model]);
    let (w1_shape, w2_shape) = match layout {
        ExpertLayout::Canonical => ([experts, d_model, d_hidden], [experts, d_hidden, d_model]),
        ExpertLayout::Linear => ([experts, d_hidden, d_model], [experts, d_model, d_hidden]),
    };
    let w1_data = make(&w1_shape);
    let w2_data = make(&w2_shape);
    let w3_data = make(&w1_shape);

    let mut model = TypedModel { nodes: vec![], outputs: vec![] };
    let x_fact = plain(DatumType::F16, &[1, tokens, d_model]);
    let x = wire(&mut model, "x", TypedOp::Other(0), &[], x_fact);
    let wg_val = Tensor::Other { datum_type: DatumType::F32, id: 1 };
    let wg = wire(
        &mut model,
        "wg",
        TypedOp::Const(Const { val: Arc::new(wg_val), exotic: None }),
        &[],
        plain(DatumType::F32, &[experts, d_model]),
    );
    let w1 = add_q40_const(&mut model, "w1", &w1_shape, &w1_data);
    let w2 = add_q40_const(&mut model, "w2", &w2_shape, &w2_data);
    let w3 = add_q40_const(&mut model, "w3", &w1_shape, &w3_data);
    let op = MoeFfn {
        k,
        activation: activation.to_string(),
        gate: GateMode::SoftmaxTopk,
        has_w3: true,
        has_wg_bias: false,
        has_w1_bias: false,
        has_w3_bias: false,
        has_w2_bias: false,
        act_alpha_bits: None,
        act_limit_bits: None,
        expert_layout: layout,
    };
    let y_fact = plain(DatumType::F16, &[1, tokens, d_model]);
    let y = wire(&mut model, "moe", TypedOp::MoeFfn(op), &[x, wg, w1, w2, w3], y_fact);
    model.outputs.push(y);
    assert!(is_ready(&model));
    model
}

fn moe_of(model: &TypedModel) -> &MoeFfn {
    model
        .nodes
        .iter()
        .find_map(|n| match &n.op {
            TypedOp::MoeFfn(op) => Some(op),
            _ => None,
        })
        .unwrap()
}

fn moe_ffn_layout(model: &TypedModel) -> Option<ExpertLayout> {
    Some(moe_of(model).expert_layout)
}

fn const_val(model: &TypedModel, name: &str) -> Arc<Tensor> {
    let node = model.nodes.iter().find(|n| n.name == name).unwrap();
    match &node.op {
        TypedOp::Const(k) => k.val.clone(),
        _ => panic!("{name} is no const"),
    }
}

fn w1_const_val(model: &TypedModel) -> Arc<Tensor> {
    const_val(model, "w1")
}

fn block_quant(val: &Tensor) -> &BlockQuantTensor {
    match val {
        Tensor::BlockQuant(t) => t,
        _ => panic!("no block-quantized tensor"),
    }
}

#[test]
fn linear_q40_moe_repack_is_noop() {
    let mut model = build_qwen_moe(ExpertLayout::Linear, "silu", 4);
    let w1_before = w1_const_val(&model);
    repack_canonical_q40_moe_experts(&mut model, None, None).unwrap();
    assert!(moe_ffn_layout(&model) == Some(ExpertLayout::Linear));
    assert!(
        Arc::ptr_eq(&w1_before, &w1_const_val(&model)),
        "repack pass rebuilt a linear-layout const"
    );
}

#[test]
fn canonical_q40_moe_repack_skips_unsupported_activation() {
    let mut model = build_qwen_moe(ExpertLayout::Canonical, "gelu", 4);
    let w1_before = w1_const_val(&model);
    repack_canonical_q40_moe_experts(&mut model, None, None).unwrap();
    assert!(moe_ffn_layout(&model) == Some(ExpertLayout::Canonical));
    assert!(
        Arc::ptr_eq(&w1_before, &w1_const_val(&model)),
        "repack pass rebuilt consts for an op the lowering cannot take"
    );
}

#[test]
fn canonical_q40_expert_transpose_roundtrip() {
    let (experts, a, b) = (3, 64, 32);
    let mut data = vec![0f32; experts * a * b];
    for (i, v) in data.iter_mut().enumerate() {
        *v = ((i * 2654435761usize) % 1000) as f32 / 500.0 - 1.0;
    }
    let tensor = q40_tensor(&[experts, a, b], &data);

    let transposed = transpose_block_quant_experts(&tensor).unwrap();
    assert!(transposed.shape == [experts, b, a]);
    assert!(transposed.is_well_formed());

    let orig = Q4_0.dequant_f32(&tensor.packed).unwrap();
    let tr = Q4_0.dequant_f32(&transposed.packed).unwrap();
    let orig_view = orig.try_as_plain_ram().unwrap();
    let tr_view = tr.try_as_plain_ram().unwrap();
    let orig = orig_view.as_slice::<f32>().unwrap();
    let tr = tr_view.as_slice::<f32>().unwrap();
    for e in 0..experts {
        for i in 0..a {
            for j in 0..b {
                let x = orig[e * a * b + i * b + j];
                let y = tr[e * a * b + j * a + i];
                // One Q4_0 step of a block with amax ~1 is 0.125; the requantization can be off
                // by up to about one step.
                assert!(
                    (x - y).abs() <= 0.13 + 0.05 * x.abs(),
                    "expert {e} [{i},{j}]: canonical {x} vs transposed {y}"
                );
            }
        }
    }
}

#[test]
fn transposition_errors() {
    let flat = q40_tensor(&[64, 32], &vec![0.5; 64 * 32]);
    assert_eq!(transpose_block_quant_experts(&flat).unwrap_err(), TransposeError::NotRankThree);
    let uneven = q40_tensor(&[2, 16, 32], &vec![0.5; 2 * 16 * 32]);
    assert_eq!(transpose_block_quant_experts(&uneven).unwrap_err(), TransposeError::UnevenBlocks);
}

#[test]
fn blocks_have_to_match_the_shape() {
    let mut t = q40_tensor(&[2, 32, 32], &vec![0.25; 2 * 32 * 32]);
    assert_eq!(t.packed.len(), 2 * 32 * 18);
    assert!(t.is_well_formed());
    t.packed.pop();
    assert!(!t.is_well_formed());
    t.shape = vec![usize::MAX, usize::MAX];
    assert!(!t.is_well_formed());
}

#[test]
fn canonical_experts_are_transposed() {
    let mut model = build_qwen_moe(ExpertLayout::Canonical, "silu", 4);
    let before: Vec<_> = ["w1", "w2", "w3"].iter().map(|n| const_val(&model, n)).collect();
    let wg = const_val(&model, "wg");
    repack_canonical_q40_moe_experts(&mut model, None, None).unwrap();
    assert_eq!(moe_ffn_layout(&model), Some(ExpertLayout::Linear));
    for (name, old) in ["w1", "w2", "w3"].iter().zip(before) {
        let new = const_val(&model, name);
        let expected = transpose_block_quant_experts(block_quant(&old)).unwrap();
        let new = block_quant(&new);
        assert_eq!(new.shape, expected.shape);
        assert_eq!(new.packed, expected.packed);
        assert_ne!(new.packed, block_quant(&old).packed);
        let node = model.nodes.iter().find(|n| n.name == *name).unwrap();
        assert!(node.outputs[0].fact.same(&new.fact()));
        assert_eq!(node.outputs[0].successors.len(), 1);
    }
    assert_eq!(block_quant(&w1_const_val(&model)).shape, [8, 96, 64]);
    assert_eq!(block_quant(&const_val(&model, "w2")).shape, [8, 64, 96]);
    assert!(Arc::ptr_eq(&wg, &const_val(&model, "wg")));
    assert!(is_ready(&model));

    // What comes out is what the routed kernels take.
    let moe = model.nodes.iter().position(|n| n.name == "moe").unwrap();
    let facts = model.node_input_facts(moe).unwrap();
    assert!(q40_moe_facts_supported(moe_of(&model), &facts, ExpertLayout::Linear));

    // A second time nothing is left to do.
    let w1 = w1_const_val(&model);
    repack_canonical_q40_moe_experts(&mut model, None, None).unwrap();
    assert!(Arc::ptr_eq(&w1, &w1_const_val(&model)));
}

#[test]
fn repacking_can_be_switched_off() {
    for (a, b) in [(Some("1"), None), (None, Some("yes")), (Some("TRUE"), Some("0"))] {
        let mut model = build_qwen_moe(ExpertLayout::Canonical, "silu", 4);
        repack_canonical_q40_moe_experts(&mut model, a, b).unwrap();
        assert_eq!(moe_ffn_layout(&model), Some(ExpertLayout::Canonical));
    }
    let mut model = build_qwen_moe(ExpertLayout::Canonical, "silu", 4);
    repack_canonical_q40_moe_experts(&mut model, Some("False"), Some("0")).unwrap();
    assert_eq!(moe_ffn_layout(&model), Some(ExpertLayout::Linear));
}

#[test]
fn shared_weights_are_left_alone() {
    // A second reader.
    let mut model = build_qwen_moe(ExpertLayout::Canonical, "swiglu", 4);
    let w2 = model.nodes.iter().position(|n| n.name == "w2").unwrap();
    let outlet = OutletId { node: w2, slot: 0 };
    wire(&mut model, "other", TypedOp::Other(7), &[outlet], plain(DatumType::F32, &[1]));
    let moe = model.nodes.iter().position(|n| n.name == "moe").unwrap();
    assert!(matches!(repack_decision(&model, moe), Ok(RepackDecision::Shared { slot: 3 })));
    let w1 = w1_const_val(&model);
    repack_canonical_q40_moe_experts(&mut model, None, None).unwrap();
    assert_eq!(moe_ffn_layout(&model), Some(ExpertLayout::Canonical));
    assert!(Arc::ptr_eq(&w1, &w1_const_val(&model)));

    // An output of the graph.
    let mut model = build_qwen_moe(ExpertLayout::Canonical, "swiglu", 4);
    let w1 = model.nodes.iter().position(|n| n.name == "w1").unwrap();
    model.outputs.push(OutletId { node: w1, slot: 0 });
    assert!(matches!(repack_decision(&model, moe), Ok(RepackDecision::Shared { slot: 2 })));
}

#[test]
fn decisions_name_the_constants() {
    let model = build_qwen_moe(ExpertLayout::Canonical, "silu", 4);
    match repack_decision(&model, 5).unwrap() {
        RepackDecision::Transpose(ids) => assert_eq!(ids, [2, 3, 4]),
        other => panic!("{other:?}"),
    }
    assert!(matches!(repack_decision(&model, 0), Ok(RepackDecision::Skip)));
}

#[test]
fn a_limit_needs_a_gate() {
    let mut model = build_qwen_moe(ExpertLayout::Canonical, "silu", 4);
    if let TypedOp::MoeFfn(op) = &mut model.nodes[5].op {
        op.has_w3 = false;
        op.act_limit_bits = Some(7);
    }
    let w3 = model.nodes[5].inputs.pop().unwrap();
    model.nodes[w3.node].outputs[0].successors.clear();
    assert!(is_ready(&model));
    repack_canonical_q40_moe_experts(&mut model, None, None).unwrap();
    assert_eq!(moe_ffn_layout(&model), Some(ExpertLayout::Canonical));
    if let TypedOp::MoeFfn(op) = &mut model.nodes[5].op {
        op.act_limit_bits = None;
    }
    repack_canonical_q40_moe_experts(&mut model, None, None).unwrap();
    assert_eq!(moe_ffn_layout(&model), Some(ExpertLayout::Linear));
}

#[test]
fn an_input_that_is_no_outlet_is_an_error() {
    let mut model = build_qwen_moe(ExpertLayout::Canonical, "silu", 4);
    let bad = OutletId { node: 99, slot: 0 };
    model.nodes[5].inputs[1] = bad;
    assert!(is_ready(&model));
    let e = repack_canonical_q40_moe_experts(&mut model, None, None).unwrap_err();
    assert_eq!(e.outlet, bad);
    assert_eq!(model.outlet_fact(bad).unwrap_err().outlet, bad);
    assert_eq!(moe_ffn_layout(&model), Some(ExpertLayout::Canonical));
    // Nothing is read of a node that is no candidate.
    let mut model = build_qwen_moe(ExpertLayout::Linear, "silu", 4);
    model.nodes[5].inputs[1] = bad;
    repack_canonical_q40_moe_experts(&mut model, None, None).unwrap();
}

#[test]
fn edges_are_checked() {
    let mut model = build_qwen_moe(ExpertLayout::Linear, "silu", 4);
    model.nodes[2].outputs[0].successors.clear();
    assert!(!is_ready(&model));
}

#[test]
fn only_what_is_transposed_has_to_be_described() {
    // A fact that says nothing of the packing: the experts are not for the routed kernels.
    let mut model = build_qwen_moe(ExpertLayout::Canonical, "silu", 4);
    model.nodes[2].outputs[0].fact = plain(DatumType::F32, &[8, 64, 96]);
    assert!(is_ready(&model));
    repack_canonical_q40_moe_experts(&mut model, None, None).unwrap();
    assert_eq!(moe_ffn_layout(&model), Some(ExpertLayout::Canonical));

    // Weights that do not fill their shape matter to a candidate, unless this is switched off.
    let broken = |layout| {
        let mut model = build_qwen_moe(layout, "silu", 4);
        if let TypedOp::Const(k) = &mut model.nodes[2].op {
            let t = block_quant(&k.val);
            k.val = Arc::new(Tensor::BlockQuant(BlockQuantTensor {
                format: t.format,
                datum_type: t.datum_type,
                shape: t.shape.clone(),
                packed: t.packed[1..].to_vec(),
            }));
        }
        model
    };
    assert!(is_ready(&broken(ExpertLayout::Linear)));
    let mut model = broken(ExpertLayout::Canonical);
    assert!(!is_ready(&model));
    repack_canonical_q40_moe_experts(&mut model, Some("1"), None).unwrap();
    assert_eq!(moe_ffn_layout(&model), Some(ExpertLayout::Canonical));

    // A candidate needs its inputs, and may have more.
    let mut model = build_qwen_moe(ExpertLayout::Canonical, "silu", 4);
    if let TypedOp::MoeFfn(op) = &mut model.nodes[5].op {
        op.has_w2_bias = true;
    }
    assert!(!is_ready(&model));
    let mut model = build_qwen_moe(ExpertLayout::Canonical, "silu", 4);
    let x = model.nodes[5].inputs[0];
    model.nodes[5].inputs.push(x);
    model.nodes[x.node].outputs[x.slot].successors.push(InletId { node: 5, slot: 5 });
    assert!(is_ready(&model));
    repack_canonical_q40_moe_experts(&mut model, None, None).unwrap();
    assert_eq!(moe_ffn_layout(&model), Some(ExpertLayout::Linear));
}

#[test]
fn outputs_keep_their_facts() {
    let mut model = build_qwen_moe(ExpertLayout::Canonical, "silu", 4);
    model.outputs.push(OutletId { node: 2, slot: 0 });
    let before: Vec<TypedFact> =
        model.outputs.iter().map(|o| model.outlet_fact(*o).unwrap().duplicate()).collect();
    repack_canonical_q40_moe_experts(&mut model, None, None).unwrap();
    assert_eq!(moe_ffn_layout(&model), Some(ExpertLayout::Canonical));
    model.outputs.pop();
    repack_canonical_q40_moe_experts(&mut model, None, None).unwrap();
    assert_eq!(moe_ffn_layout(&model), Some(ExpertLayout::Linear));
    for (o, fact) in model.outputs.iter().zip(&before) {
        assert!(model.outlet_fact(*o).unwrap().same(fact));
    }
}

fn op(flags: [bool; 5]) -> MoeFfn {
    MoeFfn {
        k: 2,
        activation: "silu".to_string(),
        gate: GateMode::Raw,
        has_w3: flags[0],
        has_wg_bias: flags[1],
        has_w1_bias: flags[2],
        has_w3_bias: flags[3],
        has_w2_bias: flags[4],
        act_alpha_bits: None,
        act_limit_bits: None,
        expert_layout: ExpertLayout::Canonical,
    }
}

#[test]
fn optional_inputs_follow_without_gaps() {
    assert_eq!(
        moe_input_indexes(&op([true, true, true, true, true])),
        MoeInputIndexes {
            w3: Some(4),
            wg_bias: Some(5),
            w1_bias: Some(6),
            w3_bias: Some(7),
            w2_bias: Some(8)
        }
    );
    let some = op([false, true, false, false, true]);
    assert_eq!(
        moe_input_indexes(&some),
        MoeInputIndexes {
            w3: None,
            wg_bias: Some(4),
            w1_bias: None,
            w3_bias: None,
            w2_bias: Some(5)
        }
    );
    assert_eq!(some.arity(), 6);
}

#[test]
fn activations() {
    let mut moe = op([true; 5]);
    assert!(q40_moe_activation_supported(&moe));
    moe.activation = "swiglu".to_string();
    assert!(q40_moe_activation_supported(&moe));
    moe.has_w3 = false;
    assert!(!q40_moe_activation_supported(&moe));
    moe.activation = "silu ".to_string();
    assert!(!q40_moe_activation_supported(&moe));
}

fn gate_facts(experts: usize) -> Vec<TypedFact> {
    vec![
        plain(DatumType::F32, &[5, 64]),
        plain(DatumType::F16, &[experts, 64]),
        q40(&[experts, 96, 64]),
        q40(&[experts, 64, 96]),
        plain(DatumType::F32, &[experts]),
        plain(DatumType::F32, &[experts, 96]),
        plain(DatumType::F16, &[experts, 64]),
    ]
}

#[test]
fn the_gate_looks_at_every_input() {
    let moe = op([false, true, true, false, true]);
    let linear = ExpertLayout::Linear;
    assert!(q40_moe_facts_supported(&moe, &gate_facts(8), linear));
    assert!(q40_moe_facts_supported(&moe, &gate_facts(256), linear));
    assert!(!q40_moe_facts_supported(&moe, &gate_facts(257), linear));
    // The biases fit one layout only.
    assert!(!q40_moe_facts_supported(&moe, &gate_facts(8), ExpertLayout::Canonical));

    let with = |ix: usize, fact: TypedFact| {
        let mut facts = gate_facts(8);
        facts[ix] = fact;
        q40_moe_facts_supported(&moe, &facts, linear)
    };
    assert!(with(0, plain(DatumType::F16, &[1, 5, 64])));
    assert!(!with(0, plain(DatumType::F16, &[2, 5, 64])));
    assert!(!with(0, plain(DatumType::F16, &[64])));
    assert!(!with(0, plain(DatumType::I32, &[5, 64])));
    assert!(!with(1, plain(DatumType::F64, &[8, 64])));
    assert!(!with(2, plain(DatumType::F32, &[8, 96, 64])));
    assert!(!with(2, q40(&[8, 96 * 64])));
    assert!(!with(3, plain(DatumType::F32, &[8, 64, 96])));
    assert!(!with(4, plain(DatumType::F32, &[8, 1])));
    assert!(!with(5, plain(DatumType::F32, &[8, 64])));
    assert!(!with(6, plain(DatumType::I8, &[8, 64])));
    let symbolic = TypedFact {
        shape: vec![TDim::Sym(0), TDim::Val(96), TDim::Val(64)],
        ..q40(&[8, 96, 64])
    };
    assert!(!with(2, symbolic));
}

#[test]
fn flags() {
    assert!(!env_flag(None));
    for off in ["0", "false", "FALSE", "fAlSe"] {
        assert!(!env_flag(Some(off)));
    }
    for on in ["1", "", "no", "00", "falsy", "true"] {
        assert!(env_flag(Some(on)));
    }
    assert!(moe_sync_after_dispatch(None));
    assert!(moe_sync_after_dispatch(Some("0")));
    assert!(!moe_sync_after_dispatch(Some("1")));
}
