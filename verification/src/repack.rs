//! Transposes the expert matrices of mixtures of experts into the layout that the routed
//! kernels read.

use crate::dim::{abs, as_concrete, concrete, TDim};
use crate::fact::{fact_views, BlockQuantFormat, ExoticFactView, TypedFact, TypedFactView};
use crate::flags::{env_flag, flag_set, variable_text};
use crate::list::{lists, same_list};
use crate::model::{
    Const, InletId, InvalidOutlet, OutletId, Tensor, TypedModel, TypedNode, TypedOp,
};
use crate::moe::{
    count, facts_supported, moe_input_indexes, q40_moe_activation_supported, q40_moe_facts_supported,
    ExpertLayout, MoeFfn,
};
use crate::weights::{
    is_transposed, law_elements_are_transposed, lemma_extent_bounds, q40_block_len, q40_step,
    q40_unpacked, steps_finite, swapped, transpose_block_quant_experts, transposable,
    BlockQuantTensor,
};
use std::sync::Arc;
use vstd::prelude::*;

verus! {

/// What is to be done about the experts of a node.
#[derive(Debug)]
pub enum RepackDecision {
    /// Nothing: the routed kernels do not take the node, or they take it as it is.
    Skip,
    /// Nothing: the weights of the input are not a block-quantized constant of its own.
    Shared { slot: usize },
    /// The constants to transpose, by node.
    Transpose(Vec<usize>),
}

/// The inputs that hold expert matrices.
pub open spec fn expert_slots(op: MoeFfn) -> Seq<usize> {
    match op.spec_indexes().w3 {
        Some(ix) => seq![2usize, 3usize, ix],
        None => seq![2usize, 3usize],
    }
}

/// The operator is in the canonical layout, and computes what the routed kernels compute.
pub open spec fn candidate(op: MoeFfn) -> bool {
    &&& op.expert_layout == ExpertLayout::Canonical
    &&& op.activation_supported()
    &&& op.act_limit_bits is Some ==> op.has_w3
}

/// The expert matrices have known, mutually consistent shapes, and can be transposed: `w1`
/// and `w3` are `[E,D,H]`, `w2` is `[E,H,D]`, and `D` and `H` are whole blocks.
pub open spec fn shapes_consistent(op: MoeFfn, facts: Seq<TypedFactView>) -> bool {
    let w1 = concrete(facts[2].shape);
    let w2 = concrete(facts[3].shape);
    &&& w1 is Some
    &&& w2 is Some
    &&& w2->0 == swapped(w1->0)
    &&& op.spec_indexes().w3 matches Some(ix) ==> concrete(facts[ix as int].shape) == w1
    &&& transposable(w1->0)
}

/// The outlet is that of a block-quantized constant that one inlet reads and nothing else.
pub open spec fn exclusive_const(model: TypedModel, outlet: OutletId) -> bool {
    let node = model.nodes@[outlet.node as int];
    &&& outlet.slot == 0
    &&& node.op matches TypedOp::Const(k) && (*k.val) is BlockQuant
    &&& node.outputs@[0].successors@.len() == 1
    &&& !model.outputs@.contains(outlet)
}

/// The node is a mixture of experts in the canonical layout whose facts and shapes suit the
/// routed kernels.
pub open spec fn suitable(model: TypedModel, n: int) -> bool {
    model.nodes@[n].op matches TypedOp::MoeFfn(op) && {
        &&& candidate(op)
        &&& model.inputs_valid(n)
        &&& facts_supported(op, model.spec_input_facts(n), ExpertLayout::Canonical)
        &&& shapes_consistent(op, model.spec_input_facts(n))
    }
}

/// The experts of the node are to be transposed.
pub open spec fn eligible(model: TypedModel, n: int) -> bool {
    &&& suitable(model, n)
    &&& model.nodes@[n].op matches TypedOp::MoeFfn(op) && forall|i: int|
        0 <= i < expert_slots(op).len() ==> exclusive_const(
            model,
            model.nodes@[n].inputs@[#[trigger] expert_slots(op)[i] as int],
        )
}

/// The node has the inputs that are looked at, if it is a candidate: the matrices, and where
/// the first list of experts is one of matrices, the biases.
pub open spec fn has_its_inputs(model: TypedModel, n: int) -> bool {
    model.nodes@[n].op matches TypedOp::MoeFfn(op) ==> (candidate(op) && model.inputs_valid(n)
        ==> {
        &&& model.nodes@[n].inputs@.len() >= 4 + count(op.has_w3)
        &&& model.spec_input_facts(n)[2].rank() == 3 ==> model.nodes@[n].inputs@.len()
            >= op.spec_arity()
    })
}

/// The constants that hold experts of the node are described by their facts, if they are to
/// be transposed.
pub open spec fn experts_described(model: TypedModel, n: int) -> bool {
    eligible(model, n) ==> (model.nodes@[n].op matches TypedOp::MoeFfn(op) ==> forall|i: int|
        0 <= i < expert_slots(op).len() ==> model.const_described(
            model.nodes@[n].inputs@[#[trigger] expert_slots(op)[i] as int].node as int,
        ))
}

/// The experts of the graph can be dealt with: outlets know who reads them, candidates have
/// their inputs, and what is to be transposed is described by its fact.
pub open spec fn ready(model: TypedModel) -> bool {
    &&& model.edges_consistent()
    &&& forall|n: int|
        0 <= n < model.nodes@.len() ==> #[trigger] has_its_inputs(model, n) && experts_described(
            model,
            n,
        )
}

/// The constant `c` holds experts of node `n`.
pub open spec fn holds_experts(model: TypedModel, n: int, c: int) -> bool {
    model.nodes@[n].op matches TypedOp::MoeFfn(op) && exists|i: int|
        0 <= i < expert_slots(op).len() && model.nodes@[n].inputs@[#[trigger] expert_slots(
            op,
        )[i] as int].node == c
}

/// The constant `c` holds experts to be transposed, of one of the first `upto` nodes.
pub open spec fn to_transpose(model: TypedModel, c: int, upto: int) -> bool {
    exists|n: int| 0 <= n < upto && eligible(model, n) && #[trigger] holds_experts(model, n, c)
}

/// `after` is the constant `before` with its matrices transposed. Its outlet has the fact
/// of the new tensor, and the same readers.
pub open spec fn const_transposed(before: TypedNode, after: TypedNode) -> bool {
    &&& before.op matches TypedOp::Const(k0) && *k0.val matches Tensor::BlockQuant(t0)
        && after.op matches TypedOp::Const(k) && *k.val matches Tensor::BlockQuant(t) && {
        &&& is_transposed(t0, t)
        &&& k.exotic matches Some(x) && x@ == t.spec_exotic_fact()
        &&& after.outputs@[0].fact@ == t.spec_fact()
    }
    &&& after.name == before.name
    &&& after.inputs == before.inputs
    &&& after.outputs@.len() == before.outputs@.len()
    &&& after.outputs@[0].successors == before.outputs@[0].successors
    &&& forall|i: int| 0 < i < after.outputs@.len() ==> after.outputs@[i] == #[trigger] before.outputs@[i]
}

/// `after` is the mixture of experts `before`, read in the linear layout.
pub open spec fn made_linear(before: TypedNode, after: TypedNode) -> bool {
    &&& before.op matches TypedOp::MoeFfn(op) && after.op == TypedOp::MoeFfn(
        MoeFfn { expert_layout: ExpertLayout::Linear, ..op },
    )
    &&& after.name == before.name
    &&& after.inputs == before.inputs
    &&& after.outputs == before.outputs
}

/// What becomes of a node once the experts of the first `upto` nodes have been dealt with.
pub open spec fn node_repacked(
    before: TypedModel,
    n: int,
    after: TypedNode,
    upto: int,
) -> bool {
    if n < upto && eligible(before, n) {
        made_linear(before.nodes@[n], after)
    } else if to_transpose(before, n, upto) {
        const_transposed(before.nodes@[n], after)
    } else {
        after == before.nodes@[n]
    }
}

/// `after` is the graph `before` once the experts of the first `upto` nodes have been dealt
/// with: those of eligible nodes are transposed and the nodes read them in the linear
/// layout, and every other node is as it was.
pub open spec fn repacked(before: TypedModel, after: TypedModel, upto: int) -> bool {
    &&& after.outputs == before.outputs
    &&& after.nodes@.len() == before.nodes@.len()
    &&& forall|n: int|
        0 <= n < after.nodes@.len() ==> node_repacked(before, n, #[trigger] after.nodes@[n], upto)
}

/// The node is a candidate with an input that is no outlet of the graph; `e` is the first.
pub open spec fn fails_at(model: TypedModel, n: int, e: InvalidOutlet) -> bool {
    &&& model.nodes@[n].op matches TypedOp::MoeFfn(op) && candidate(op)
    &&& exists|i: int|
        {
            &&& 0 <= i < model.nodes@[n].inputs@.len()
            &&& #[trigger] model.nodes@[n].inputs@[i] == e.outlet
            &&& !model.has_outlet(e.outlet)
            &&& forall|j: int|
                0 <= j < i ==> model.has_outlet(#[trigger] model.nodes@[n].inputs@[j])
        }
}

/// Every input of the node is an outlet of the graph, if the node is a candidate.
pub open spec fn readable(model: TypedModel, n: int) -> bool {
    model.nodes@[n].op matches TypedOp::MoeFfn(op) && candidate(op) ==> model.inputs_valid(n)
}

/// Node `k` is the first that fails, and the nodes before it have been dealt with.
pub open spec fn stops_at(
    before: TypedModel,
    after: TypedModel,
    k: int,
    e: InvalidOutlet,
) -> bool {
    &&& 0 <= k < before.nodes@.len()
    &&& fails_at(before, k, e)
    &&& forall|i: int| 0 <= i < k ==> #[trigger] readable(before, i)
    &&& repacked(before, after, k)
}

/// The nodes of the outlets that a node reads through the slots.
pub open spec fn read_nodes(node: TypedNode, slots: Seq<usize>) -> Seq<usize> {
    slots.map_values(|s: usize| node.inputs@[s as int].node)
}

/// The inputs of the operator that hold expert matrices.
fn expert_inputs(op: &MoeFfn) -> (r: Vec<usize>)
    ensures
        r@ == expert_slots(*op),
{
    let mut slots: Vec<usize> = Vec::new();
    slots.push(2);
    slots.push(3);
    match moe_input_indexes(op).w3 {
        Some(ix) => slots.push(ix),
        None => {},
    }
    assert(slots@ =~= expert_slots(*op));
    slots
}

/// Whether the expert matrices have known, mutually consistent shapes, and can be transposed.
fn shapes_are_consistent(op: &MoeFfn, facts: &Vec<TypedFact>) -> (r: bool)
    requires
        facts@.len() >= 4 + count(op.has_w3),
        facts@[2]@.rank() == 3,
    ensures
        r == shapes_consistent(*op, fact_views(facts@)),
{
    let (w1, w2) = match (as_concrete(&facts[2].shape), as_concrete(&facts[3].shape)) {
        (Some(w1), Some(w2)) => (w1, w2),
        _ => return false,
    };
    let w3_ok = match moe_input_indexes(op).w3 {
        None => true,
        Some(ix) => match as_concrete(&facts[ix].shape) {
            Some(w3) => {
                assert((w3@ == w1@) == (concrete(facts@[ix as int].shape@) == concrete(facts@[2].shape@)));
                same_list(&w3, &w1)
            },
            None => false,
        },
    };
    let (e, d_model, d_hidden) = (w1[0], w1[1], w1[2]);
    let block = q40_block_len();
    let w2_ok = w2.len() == 3 && w2[0] == e && w2[1] == d_hidden && w2[2] == d_model;
    assert(w2_ok == (w2@ == swapped(w1@))) by {
        if w2_ok {
            assert(w2@ =~= swapped(w1@));
        }
    }
    w2_ok && w3_ok && d_model % block == 0 && d_hidden % block == 0
}

/// Whether the outlet is that of a block-quantized constant that one inlet reads and nothing
/// else.
fn is_exclusive_const(model: &TypedModel, outlet: OutletId) -> (r: bool)
    requires
        model.has_outlet(outlet),
    ensures
        r == exclusive_const(*model, outlet),
{
    let node = &model.nodes[outlet.node];
    let block_quant = match &node.op {
        TypedOp::Const(k) => match &*k.val {
            Tensor::BlockQuant(_) => true,
            _ => false,
        },
        _ => false,
    };
    outlet.slot == 0 && block_quant && node.outputs[0].successors.len() == 1 && !lists(
        &model.outputs,
        &outlet,
    )
}

/// What is to be done about the experts of the node.
pub fn repack_decision(model: &TypedModel, node_id: usize) -> (r: Result<
    RepackDecision,
    InvalidOutlet,
>)
    requires
        node_id < model.nodes@.len(),
        has_its_inputs(*model, node_id as int),
    ensures
        match r {
            Ok(d) => readable(*model, node_id as int) && match d {
                RepackDecision::Skip => !suitable(*model, node_id as int),
                RepackDecision::Shared { slot } => {
                    &&& suitable(*model, node_id as int)
                    &&& model.nodes@[node_id as int].op matches TypedOp::MoeFfn(op) && exists|i: int|
                        {
                            &&& 0 <= i < expert_slots(op).len()
                            &&& #[trigger] expert_slots(op)[i] == slot
                            &&& !exclusive_const(
                                *model,
                                model.nodes@[node_id as int].inputs@[slot as int],
                            )
                            &&& forall|j: int|
                                0 <= j < i ==> exclusive_const(
                                    *model,
                                    model.nodes@[node_id as int].inputs@[#[trigger] expert_slots(
                                        op,
                                    )[j] as int],
                                )
                        }
                },
                RepackDecision::Transpose(ids) => {
                    &&& eligible(*model, node_id as int)
                    &&& model.nodes@[node_id as int].op matches TypedOp::MoeFfn(op) && ids@
                        == read_nodes(model.nodes@[node_id as int], expert_slots(op))
                },
            },
            Err(e) => fails_at(*model, node_id as int, e),
        },
{
    let op = match &model.nodes[node_id].op {
        TypedOp::MoeFfn(op) => op,
        _ => return Ok(RepackDecision::Skip),
    };
    if op.expert_layout != ExpertLayout::Canonical || !q40_moe_activation_supported(op) || (
    op.act_limit_bits.is_some() && !op.has_w3) {
        return Ok(RepackDecision::Skip);
    }
    let facts = match model.node_input_facts(node_id) {
        Ok(facts) => facts,
        Err(e) => return Err(e),
    };
    assert(fact_views(facts@).len() == facts@.len());
    assert(fact_views(facts@)[2] == facts@[2]@);
    if !q40_moe_facts_supported(op, &facts, ExpertLayout::Canonical) {
        return Ok(RepackDecision::Skip);
    }
    if !shapes_are_consistent(op, &facts) {
        return Ok(RepackDecision::Skip);
    }
    let slots = expert_inputs(op);
    let mut const_ids: Vec<usize> = Vec::new();
    let mut i: usize = 0;
    while i < slots.len()
        invariant
            i <= slots@.len(),
            node_id < model.nodes@.len(),
            model.nodes@[node_id as int].op == TypedOp::MoeFfn(*op),
            model.nodes@[node_id as int].inputs@.len() >= 4 + count(op.has_w3),
            model.inputs_valid(node_id as int),
            suitable(*model, node_id as int),
            slots@ == expert_slots(*op),
            const_ids@ == read_nodes(model.nodes@[node_id as int], slots@.take(i as int)),
            forall|j: int|
                0 <= j < i ==> exclusive_const(
                    *model,
                    model.nodes@[node_id as int].inputs@[#[trigger] expert_slots(*op)[j] as int],
                ),
        decreases slots@.len() - i,
    {
        let slot = slots[i];
        let outlet = model.nodes[node_id].inputs[slot];
        if !is_exclusive_const(model, outlet) {
            assert(expert_slots(*op)[i as int] == slot);
            return Ok(RepackDecision::Shared { slot });
        }
        const_ids.push(outlet.node);
        i += 1;
        assert(const_ids@ =~= read_nodes(model.nodes@[node_id as int], slots@.take(i as int)));
    }
    assert(slots@.take(i as int) =~= slots@);
    Ok(RepackDecision::Transpose(const_ids))
}

/// Whether the experts of the graph can be dealt with.
pub fn is_ready(model: &TypedModel) -> (r: bool)
    ensures
        r == ready(*model),
{
    if !model.has_consistent_edges() {
        return false;
    }
    let mut n: usize = 0;
    while n < model.nodes.len()
        invariant
            n <= model.nodes@.len(),
            model.edges_consistent(),
            forall|m: int|
                0 <= m < n ==> #[trigger] has_its_inputs(*model, m) && experts_described(*model, m),
        decreases model.nodes@.len() - n,
    {
        if !inputs_are_there(model, n) || !experts_are_described(model, n) {
            assert(!(has_its_inputs(*model, n as int) && experts_described(*model, n as int)));
            return false;
        }
        n += 1;
        assert forall|m: int| 0 <= m < n implies #[trigger] has_its_inputs(*model, m)
            && experts_described(*model, m) by {
            if m < n - 1 {
                assert(has_its_inputs(*model, m));
                assert(experts_described(*model, m));
            }
        }
    }
    true
}

/// Whether the node has the inputs that are looked at, if it is a candidate.
fn inputs_are_there(model: &TypedModel, n: usize) -> (r: bool)
    requires
        n < model.nodes@.len(),
    ensures
        r == has_its_inputs(*model, n as int),
{
    let op = match &model.nodes[n].op {
        TypedOp::MoeFfn(op) => op,
        _ => return true,
    };
    if op.expert_layout != ExpertLayout::Canonical || !q40_moe_activation_supported(op) || (
    op.act_limit_bits.is_some() && !op.has_w3) {
        return true;
    }
    let facts = match model.node_input_facts(n) {
        Ok(facts) => facts,
        Err(_) => return true,
    };
    assert(fact_views(facts@).len() == facts@.len());
    let least: usize = if op.has_w3 {
        5
    } else {
        4
    };
    if facts.len() < least {
        return false;
    }
    assert(fact_views(facts@)[2] == facts@[2]@);
    facts[2].rank() != 3 || facts.len() >= op.arity()
}

/// Whether the constants that hold experts of the node are described by their facts, if they
/// are to be transposed.
fn experts_are_described(model: &TypedModel, n: usize) -> (r: bool)
    requires
        n < model.nodes@.len(),
        has_its_inputs(*model, n as int),
    ensures
        r == experts_described(*model, n as int),
{
    let ids = match repack_decision(model, n) {
        Ok(RepackDecision::Transpose(ids)) => ids,
        _ => return true,
    };
    let ghost op = model.nodes@[n as int].op->MoeFfn_0;
    let ghost inputs = model.nodes@[n as int].inputs@;
    let mut i: usize = 0;
    while i < ids.len()
        invariant
            i <= ids@.len(),
            n < model.nodes@.len(),
            has_its_inputs(*model, n as int),
            eligible(*model, n as int),
            model.nodes@[n as int].op == TypedOp::MoeFfn(op),
            inputs == model.nodes@[n as int].inputs@,
            ids@ == read_nodes(model.nodes@[n as int], expert_slots(op)),
            forall|j: int|
                0 <= j < i ==> model.const_described(
                    inputs[#[trigger] expert_slots(op)[j] as int].node as int,
                ),
        decreases ids@.len() - i,
    {
        assert(model.has_outlet(inputs[expert_slots(op)[i as int] as int]));
        assert(ids@[i as int] == inputs[expert_slots(op)[i as int] as int].node);
        if !model.is_const_described(ids[i]) {
            return false;
        }
        i += 1;
    }
    true
}

/// Transposes the matrices of a block-quantized constant, in place.
fn repack_const(model: &mut TypedModel, cid: usize)
    requires
        cid < old(model).nodes@.len(),
        old(model).nodes@[cid as int].outputs@.len() > 0,
        old(model).nodes@[cid as int].op matches TypedOp::Const(k) && *k.val matches Tensor::BlockQuant(
            t,
        ) && t.wf() && t.format == BlockQuantFormat::Q4_0 && transposable(t.shape@),
    ensures
        final(model).outputs == old(model).outputs,
        final(model).nodes@.len() == old(model).nodes@.len(),
        const_transposed(old(model).nodes@[cid as int], final(model).nodes@[cid as int]),
        forall|n: int|
            0 <= n < old(model).nodes@.len() && n != cid ==> #[trigger] final(model).nodes@[n]
                == old(model).nodes@[n],
{
    let repacked = match &model.nodes[cid].op {
        TypedOp::Const(k) => match &*k.val {
            Tensor::BlockQuant(old_val) => transpose_block_quant_experts(old_val),
            _ => return ,
        },
        _ => return ,
    };
    if let Ok(repacked) = repacked {
        let fact = repacked.fact();
        let exotic_fact = repacked.exotic_fact();
        let konst = Const { val: Arc::new(Tensor::BlockQuant(repacked)), exotic: Some(exotic_fact) };
        let const_node = &mut model.nodes[cid];
        const_node.op = TypedOp::Const(konst);
        const_node.outputs[0].fact = fact;
    }
}

/// Lets a mixture of experts read its experts in the linear layout.
fn make_linear(model: &mut TypedModel, node_id: usize)
    requires
        node_id < old(model).nodes@.len(),
        old(model).nodes@[node_id as int].op is MoeFfn,
    ensures
        final(model).outputs == old(model).outputs,
        final(model).nodes@.len() == old(model).nodes@.len(),
        made_linear(old(model).nodes@[node_id as int], final(model).nodes@[node_id as int]),
        forall|n: int|
            0 <= n < old(model).nodes@.len() && n != node_id ==> #[trigger] final(model).nodes@[n]
                == old(model).nodes@[n],
{
    let node = &mut model.nodes[node_id];
    match &mut node.op {
        TypedOp::MoeFfn(op) => {
            op.expert_layout = ExpertLayout::Linear;
        },
        _ => {},
    }
}

/// The block-quantized tensor of a constant.
spec fn block_quant(node: TypedNode) -> Option<BlockQuantTensor> {
    match node.op {
        TypedOp::Const(k) => match *k.val {
            Tensor::BlockQuant(t) => Some(t),
            _ => None,
        },
        _ => None,
    }
}

/// An outlet that holds experts to be transposed has one reader.
proof fn lemma_one_reader(model: TypedModel, n: int, i: int, k: int, j: int)
    requires
        ready(model),
        0 <= n < model.nodes@.len(),
        eligible(model, n),
        model.nodes@[n].op matches TypedOp::MoeFfn(op) && 0 <= i < expert_slots(op).len(),
        0 <= k < model.nodes@.len(),
        0 <= j < model.nodes@[k].inputs@.len(),
        model.nodes@[k].inputs@[j] == model.nodes@[n].inputs@[expert_slots(
            model.nodes@[n].op->MoeFfn_0,
        )[i] as int],
    ensures
        k == n,
        j == expert_slots(model.nodes@[n].op->MoeFfn_0)[i],
{
    let op = model.nodes@[n].op->MoeFfn_0;
    let s = expert_slots(op)[i] as int;
    assert(has_its_inputs(model, n));
    assert(s < model.nodes@[n].inputs@.len());
    let o = model.nodes@[n].inputs@[s];
    assert(model.has_outlet(o));
    assert(exclusive_const(model, o));
    let readers = model.nodes@[o.node as int].outputs@[o.slot as int].successors@;
    let a = InletId { node: n as usize, slot: s as usize };
    let b = InletId { node: k as usize, slot: j as usize };
    assert(model.edge_consistent(n, s) && model.edge_consistent(k, j));
    assert(readers.contains(a));
    assert(model.nodes@[k].inputs@[j] == o);
    assert(readers.contains(b));
    assert(a == b);
    assert(model.nodes.len() == model.nodes@.len());
    assert(model.nodes@[n].inputs.len() == model.nodes@[n].inputs@.len());
    assert(model.nodes@[k].inputs.len() == model.nodes@[k].inputs@.len());
}

/// The inputs of a node are left as they were where they hold no experts to be transposed.
proof fn lemma_input_kept(before: TypedModel, after: TypedModel, upto: int, k: int, j: int)
    requires
        ready(before),
        0 <= upto <= before.nodes@.len(),
        repacked(before, after, upto),
        0 <= k < before.nodes@.len(),
        0 <= j < before.nodes@[k].inputs@.len(),
        k < upto && eligible(before, k) ==> !expert_slots(
            before.nodes@[k].op->MoeFfn_0,
        ).contains(j as usize),
    ensures
        ({
            let o = before.nodes@[k].inputs@[j];
            &&& after.has_outlet(o) == before.has_outlet(o)
            &&& before.has_outlet(o) ==> {
                &&& after.spec_outlet_fact(o) == before.spec_outlet_fact(o)
                &&& exclusive_const(after, o) == exclusive_const(before, o)
                &&& o.slot == 0 ==> !to_transpose(before, o.node as int, upto)
            }
        }),
{
    let o = before.nodes@[k].inputs@[j];
    if o.node < before.nodes@.len() {
        assert(node_repacked(before, o.node as int, after.nodes@[o.node as int], upto));
    }
    if before.has_outlet(o) && to_transpose(before, o.node as int, upto) {
        let n = choose|n: int|
            0 <= n < upto && eligible(before, n) && #[trigger] holds_experts(
                before,
                n,
                o.node as int,
            );
        let op = before.nodes@[n].op->MoeFfn_0;
        let i = choose|i: int|
            0 <= i < expert_slots(op).len() && before.nodes@[n].inputs@[#[trigger] expert_slots(
                op,
            )[i] as int].node == o.node;
        let q = before.nodes@[n].inputs@[expert_slots(op)[i] as int];
        assert(exclusive_const(before, q));
        if o.slot == 0 {
            assert(o == q);
            lemma_one_reader(before, n, i, k, j);
            assert(expert_slots(op)[i] == j as usize);
        }
    }
}

/// What is to be done about a node that has not been dealt with, or was not eligible, is
/// left as it was.
proof fn lemma_node_kept(before: TypedModel, after: TypedModel, upto: int, k: int)
    requires
        ready(before),
        0 <= upto <= before.nodes@.len(),
        repacked(before, after, upto),
        0 <= k < before.nodes@.len(),
        !(k < upto && eligible(before, k)),
    ensures
        after.nodes@[k].op is MoeFfn == before.nodes@[k].op is MoeFfn,
        before.nodes@[k].op is MoeFfn ==> after.nodes@[k] == before.nodes@[k],
        readable(after, k) == readable(before, k),
        suitable(after, k) == suitable(before, k),
        eligible(after, k) == eligible(before, k),
        forall|e: InvalidOutlet| fails_at(after, k, e) == fails_at(before, k, e),
{
    assert(node_repacked(before, k, after.nodes@[k], upto));
    if to_transpose(before, k, upto) {
        lemma_to_transpose_is_const(before, k, upto);
    }
    if before.nodes@[k].op is MoeFfn {
        let op = before.nodes@[k].op->MoeFfn_0;
        let inputs = before.nodes@[k].inputs@;
        assert(has_its_inputs(before, k));
        assert forall|j: int| 0 <= j < inputs.len() implies after.has_outlet(#[trigger] inputs[j])
            == before.has_outlet(inputs[j]) by {
            lemma_input_kept(before, after, upto, k, j);
        }
        assert(after.inputs_valid(k) == before.inputs_valid(k));
        if before.inputs_valid(k) {
            assert forall|j: int| 0 <= j < inputs.len() implies after.spec_outlet_fact(
                #[trigger] inputs[j],
            ) == before.spec_outlet_fact(inputs[j]) by {
                assert(before.has_outlet(inputs[j]));
                lemma_input_kept(before, after, upto, k, j);
            }
            assert(after.spec_input_facts(k) =~= before.spec_input_facts(k));
            assert forall|i: int|
                candidate(op) && 0 <= i < expert_slots(op).len() implies exclusive_const(
                after,
                inputs[#[trigger] expert_slots(op)[i] as int],
            ) == exclusive_const(before, inputs[expert_slots(op)[i] as int]) by {
                let j = expert_slots(op)[i] as int;
                assert(before.has_outlet(inputs[j]));
                lemma_input_kept(before, after, upto, k, j);
            }
        }
    }
}

/// What holds experts to be transposed is a constant.
proof fn lemma_to_transpose_is_const(model: TypedModel, c: int, upto: int)
    requires
        to_transpose(model, c, upto),
    ensures
        model.nodes@[c].op is Const,
{
    let n = choose|n: int|
        0 <= n < upto && eligible(model, n) && #[trigger] holds_experts(model, n, c);
    let op = model.nodes@[n].op->MoeFfn_0;
    let i = choose|i: int|
        0 <= i < expert_slots(op).len() && model.nodes@[n].inputs@[#[trigger] expert_slots(
            op,
        )[i] as int].node == c;
    assert(exclusive_const(model, model.nodes@[n].inputs@[expert_slots(op)[i] as int]));
}

/// What is left can be dealt with like the whole.
proof fn lemma_ready_kept(before: TypedModel, after: TypedModel, upto: int)
    requires
        ready(before),
        0 <= upto <= before.nodes@.len(),
        repacked(before, after, upto),
    ensures
        ready(after),
{
    assert forall|n: int| 0 <= n < after.nodes@.len() implies #[trigger] has_its_inputs(after, n)
        && experts_described(after, n) by {
        assert(has_its_inputs(before, n));
        assert(node_repacked(before, n, after.nodes@[n], upto));
        if !(n < upto && eligible(before, n)) && before.nodes@[n].op is MoeFfn {
            lemma_node_kept(before, after, upto, n);
            let op = before.nodes@[n].op->MoeFfn_0;
            let inputs = before.nodes@[n].inputs@;
            if candidate(op) && before.inputs_valid(n) {
                assert(before.has_outlet(inputs[2]));
                lemma_input_kept(before, after, upto, n, 2);
                assert(after.spec_input_facts(n)[2] == before.spec_input_facts(n)[2]);
            }
            if eligible(after, n) {
                assert forall|i: int| 0 <= i < expert_slots(op).len() implies after.const_described(
                    inputs[#[trigger] expert_slots(op)[i] as int].node as int,
                ) by {
                    let j = expert_slots(op)[i] as int;
                    let c = inputs[j].node as int;
                    assert(before.has_outlet(inputs[j]));
                    assert(exclusive_const(before, inputs[j]));
                    lemma_input_kept(before, after, upto, n, j);
                    assert(node_repacked(before, c, after.nodes@[c], upto));
                    assert(before.const_described(c));
                }
            }
        } else {
            lemma_not_eligible_after(before, after, upto, n);
        }
    }
    assert forall|n: int, s: int|
        0 <= n < after.nodes@.len() && 0 <= s
            < after.nodes@[n].inputs@.len() implies #[trigger] after.edge_consistent(n, s) by {
        assert(node_repacked(before, n, after.nodes@[n], upto));
        assert(before.edge_consistent(n, s));
        let o = before.nodes@[n].inputs@[s];
        if after.has_outlet(o) {
            assert(node_repacked(before, o.node as int, after.nodes@[o.node as int], upto));
        }
    }
}

/// A node that has been dealt with, or is no mixture of experts, is no candidate.
proof fn lemma_not_eligible_after(before: TypedModel, after: TypedModel, upto: int, n: int)
    requires
        0 <= n < before.nodes@.len(),
        node_repacked(before, n, after.nodes@[n], upto),
        n < upto && eligible(before, n) || !(before.nodes@[n].op is MoeFfn),
    ensures
        after.nodes@[n].op matches TypedOp::MoeFfn(op) ==> !candidate(op),
        !eligible(after, n),
{
}

/// Experts to be transposed are lists of `Q4_0` matrices whose axes are whole blocks.
proof fn lemma_experts_ready(model: TypedModel, k: int, i: int)
    requires
        ready(model),
        0 <= k < model.nodes@.len(),
        eligible(model, k),
        model.nodes@[k].op matches TypedOp::MoeFfn(op) && 0 <= i < expert_slots(op).len(),
    ensures
        ({
            let o = model.nodes@[k].inputs@[expert_slots(model.nodes@[k].op->MoeFfn_0)[i] as int];
            &&& o.node < model.nodes@.len()
            &&& o.slot == 0
            &&& model.nodes@[o.node as int].outputs@.len() > 0
            &&& model.nodes@[o.node as int].op matches TypedOp::Const(c)
                && *c.val matches Tensor::BlockQuant(t) && t.wf() && t.format
                == BlockQuantFormat::Q4_0 && transposable(t.shape@) && model.spec_outlet_fact(o)
                == t.spec_fact() && concrete(t.spec_fact().shape) == Some(t.shape@)
        }),
{
    let op = model.nodes@[k].op->MoeFfn_0;
    let s = expert_slots(op)[i] as int;
    let o = model.nodes@[k].inputs@[s];
    assert(has_its_inputs(model, k));
    assert(model.has_outlet(o));
    assert(exclusive_const(model, o));
    assert(model.const_described(o.node as int));
    let t = block_quant(model.nodes@[o.node as int])->0;
    let facts = model.spec_input_facts(k);
    assert(facts[s] == t.spec_fact());
    lemma_concrete_fact(t);
    let w1 = concrete(facts[2].shape)->0;
    assert(t.shape@ == w1 || t.shape@ == swapped(w1));
}

/// The shape in the fact of a block-quantized tensor is known, and is its shape.
proof fn lemma_concrete_fact(t: BlockQuantTensor)
    requires
        t.wf(),
    ensures
        concrete(t.spec_fact().shape) == Some(t.shape@),
{
    let shape = t.spec_fact().shape;
    assert forall|i: int| 0 <= i < shape.len() implies (#[trigger] shape[i]) == TDim::Val(
        t.shape@[i] as i64,
    ) && t.shape@[i] <= i64::MAX by {
        lemma_extent_bounds(t.shape@, i);
    }
    assert(concrete(shape)->0 =~= t.shape@);
}

/// Dealing with a node that is not eligible changes nothing.
proof fn lemma_skip(before: TypedModel, after: TypedModel, k: int)
    requires
        repacked(before, after, k),
        0 <= k < before.nodes@.len(),
        !eligible(before, k),
    ensures
        repacked(before, after, k + 1),
{
    assert forall|n: int| 0 <= n < after.nodes@.len() implies node_repacked(
        before,
        n,
        #[trigger] after.nodes@[n],
        k + 1,
    ) by {
        assert(node_repacked(before, n, after.nodes@[n], k));
        assert(to_transpose(before, n, k + 1) == to_transpose(before, n, k)) by {
            if to_transpose(before, n, k + 1) {
                let m = choose|m: int|
                    0 <= m < k + 1 && eligible(before, m) && #[trigger] holds_experts(before, m, n);
                assert(m < k);
            }
            if to_transpose(before, n, k) {
                let m = choose|m: int|
                    0 <= m < k && eligible(before, m) && #[trigger] holds_experts(before, m, n);
                assert(m < k + 1);
            }
        }
    }
}

/// Transposing the experts of an eligible node and making it linear deals with it.
proof fn lemma_step(
    before: TypedModel,
    middle: TypedModel,
    after: TypedModel,
    k: int,
    ids: Seq<usize>,
)
    requires
        ready(before),
        repacked(before, middle, k),
        0 <= k < before.nodes@.len(),
        eligible(before, k),
        ids == read_nodes(before.nodes@[k], expert_slots(before.nodes@[k].op->MoeFfn_0)),
        after.outputs == before.outputs,
        after.nodes@.len() == before.nodes@.len(),
        made_linear(before.nodes@[k], after.nodes@[k]),
        forall|i: int|
            0 <= i < ids.len() ==> const_transposed(
                before.nodes@[#[trigger] ids[i] as int],
                after.nodes@[ids[i] as int],
            ),
        forall|n: int|
            0 <= n < before.nodes@.len() && n != k && !ids.contains(n as usize)
                ==> #[trigger] after.nodes@[n] == middle.nodes@[n],
    ensures
        repacked(before, after, k + 1),
{
    let op = before.nodes@[k].op->MoeFfn_0;
    assert forall|n: int| 0 <= n < after.nodes@.len() implies node_repacked(
        before,
        n,
        #[trigger] after.nodes@[n],
        k + 1,
    ) by {
        assert(node_repacked(before, n, middle.nodes@[n], k));
        if n == k {
        } else if ids.contains(n as usize) {
            let i = choose|i: int| 0 <= i < ids.len() && ids[i] == n as usize;
            assert(before.nodes.len() == before.nodes@.len());
            assert(ids[i] == n);
            assert(before.nodes@[k].inputs@[expert_slots(op)[i] as int].node == n);
            assert(holds_experts(before, k, n));
            assert(to_transpose(before, n, k + 1));
            assert(const_transposed(before.nodes@[n], after.nodes@[n]));
        } else {
            assert(!holds_experts(before, k, n)) by {
                if holds_experts(before, k, n) {
                    let i = choose|i: int|
                        0 <= i < expert_slots(op).len()
                            && before.nodes@[k].inputs@[#[trigger] expert_slots(op)[i] as int].node
                            == n;
                    assert(ids[i] == n as usize);
                }
            }
            assert(to_transpose(before, n, k + 1) == to_transpose(before, n, k)) by {
                if to_transpose(before, n, k + 1) {
                    let m = choose|m: int|
                        0 <= m < k + 1 && eligible(before, m) && #[trigger] holds_experts(
                            before,
                            m,
                            n,
                        );
                    assert(m < k);
                }
                if to_transpose(before, n, k) {
                    let m = choose|m: int|
                        0 <= m < k && eligible(before, m) && #[trigger] holds_experts(before, m, n);
                    assert(m < k + 1);
                }
            }
        }
    }
}

/// One of the two variables switches the transposition of experts off.
pub open spec fn repack_disabled(
    disable_q40_moe: Option<&str>,
    disable_q40_moe_repack: Option<&str>,
) -> bool {
    flag_set(variable_text(disable_q40_moe)) || flag_set(variable_text(disable_q40_moe_repack))
}

/// Transposes the experts of every eligible node and lets it read them in the linear layout.
///
/// A mixture of experts in the canonical layout is eligible where the routed kernels would
/// take it in the linear one: only then is it worth that the weights are packed anew, which
/// rounds them. Everything else stays as it is. The values are those of the variables
/// `TRACT_METAL_DISABLE_Q40_MOE` and `TRACT_METAL_DISABLE_Q40_MOE_REPACK`; either switches
/// this off.
///
/// A candidate with an input that is no outlet of the graph is an error; the nodes before it
/// have been dealt with then.
pub fn repack_canonical_q40_moe_experts(
    model: &mut TypedModel,
    disable_q40_moe: Option<&str>,
    disable_q40_moe_repack: Option<&str>,
) -> (r: Result<(), InvalidOutlet>)
    requires
        !repack_disabled(disable_q40_moe, disable_q40_moe_repack) ==> ready(*old(model)),
    ensures
        ready(*old(model)) ==> ready(*final(model)),
        repack_disabled(disable_q40_moe, disable_q40_moe_repack) ==> r is Ok && *final(model)
            == *old(model),
        !repack_disabled(disable_q40_moe, disable_q40_moe_repack) && r is Ok ==> repacked(
            *old(model),
            *final(model),
            old(model).nodes@.len() as int,
        ) && forall|k: int|
            0 <= k < old(model).nodes@.len() ==> #[trigger] readable(*old(model), k),
        !repack_disabled(disable_q40_moe, disable_q40_moe_repack) && r is Err ==> exists|k: int|
            #[trigger] stops_at(*old(model), *final(model), k, r->Err_0),
{
    if env_flag(disable_q40_moe) || env_flag(disable_q40_moe_repack) {
        return Ok(());
    }
    let ghost before = *model;
    assert(repacked(before, *model, 0)) by {
        assert forall|n: int| 0 <= n < model.nodes@.len() implies node_repacked(
            before,
            n,
            #[trigger] model.nodes@[n],
            0,
        ) by {}
    }
    let mut node_id: usize = 0;
    while node_id < model.nodes.len()
        invariant
            before == *old(model),
            !repack_disabled(disable_q40_moe, disable_q40_moe_repack),
            ready(before),
            ready(*model),
            node_id <= before.nodes@.len(),
            repacked(before, *model, node_id as int),
            forall|k: int| 0 <= k < node_id ==> #[trigger] readable(before, k),
        decreases before.nodes@.len() - node_id,
    {
        let ghost middle = *model;
        proof {
            lemma_node_kept(before, middle, node_id as int, node_id as int);
        }
        match repack_decision(model, node_id) {
            Err(e) => {
                let r = Err(e);
                assert(stops_at(before, *model, node_id as int, r->Err_0));
                return r;
            },
            Ok(RepackDecision::Transpose(const_ids)) => {
                transpose_all(model, Ghost(before), node_id, &const_ids);
                make_linear(model, node_id);
                proof {
                    lemma_step(before, middle, *model, node_id as int, const_ids@);
                }
            },
            Ok(_) => {
                proof {
                    lemma_skip(before, middle, node_id as int);
                }
            },
        }
        proof {
            lemma_ready_kept(before, *model, node_id + 1);
        }
        node_id += 1;
    }
    Ok(())
}

/// Transposes the constants that hold the experts of an eligible node.
fn transpose_all(
    model: &mut TypedModel,
    Ghost(before): Ghost<TypedModel>,
    node_id: usize,
    const_ids: &Vec<usize>,
)
    requires
        ready(before),
        repacked(before, *old(model), node_id as int),
        node_id < before.nodes@.len(),
        eligible(before, node_id as int),
        const_ids@ == read_nodes(
            before.nodes@[node_id as int],
            expert_slots(before.nodes@[node_id as int].op->MoeFfn_0),
        ),
    ensures
        final(model).outputs == old(model).outputs,
        final(model).nodes@.len() == old(model).nodes@.len(),
        forall|i: int|
            0 <= i < const_ids@.len() ==> #[trigger] const_ids@[i] < before.nodes@.len()
                && const_ids@[i] != node_id && const_transposed(
                before.nodes@[const_ids@[i] as int],
                final(model).nodes@[const_ids@[i] as int],
            ),
        forall|n: int|
            0 <= n < old(model).nodes@.len() && !const_ids@.contains(n as usize)
                ==> #[trigger] final(model).nodes@[n] == old(model).nodes@[n],
{
    let ghost middle = *model;
    let ghost slots = expert_slots(before.nodes@[node_id as int].op->MoeFfn_0);
    let ghost inputs = before.nodes@[node_id as int].inputs@;
    proof {
        assert(has_its_inputs(before, node_id as int));
        assert forall|i: int| 0 <= i < slots.len() implies inputs[#[trigger] slots[i] as int].slot
            == 0 && inputs[slots[i] as int].node < before.nodes@.len() by {
            lemma_experts_ready(before, node_id as int, i);
        }
        assert forall|i: int, j: int| 0 <= i < const_ids@.len() && 0 <= j < const_ids@.len() && i
            != j implies #[trigger] const_ids@[i] != #[trigger] const_ids@[j] by {
            if const_ids@[i] == const_ids@[j] {
                assert(inputs[slots[i] as int] == inputs[slots[j] as int]);
                lemma_one_reader(before, node_id as int, i, node_id as int, slots[j] as int);
            }
        }
    }
    let mut i: usize = 0;
    while i < const_ids.len()
        invariant
            ready(before),
            repacked(before, middle, node_id as int),
            node_id < before.nodes@.len(),
            eligible(before, node_id as int),
            slots == expert_slots(before.nodes@[node_id as int].op->MoeFfn_0),
            inputs == before.nodes@[node_id as int].inputs@,
            const_ids@ == read_nodes(before.nodes@[node_id as int], slots),
            forall|i: int, j: int|
                0 <= i < const_ids@.len() && 0 <= j < const_ids@.len() && i != j
                    ==> #[trigger] const_ids@[i] != #[trigger] const_ids@[j],
            i <= const_ids@.len(),
            model.outputs == middle.outputs,
            model.nodes@.len() == middle.nodes@.len(),
            forall|j: int|
                0 <= j < i ==> #[trigger] const_ids@[j] < before.nodes@.len() && const_ids@[j]
                    != node_id && const_transposed(
                    before.nodes@[const_ids@[j] as int],
                    model.nodes@[const_ids@[j] as int],
                ),
            forall|j: int|
                i <= j < const_ids@.len() ==> model.nodes@[#[trigger] const_ids@[j] as int]
                    == middle.nodes@[const_ids@[j] as int],
            forall|n: int|
                0 <= n < middle.nodes@.len() && !const_ids@.contains(n as usize)
                    ==> #[trigger] model.nodes@[n] == middle.nodes@[n],
        decreases const_ids@.len() - i,
    {
        let cid = const_ids[i];
        proof {
            assert(has_its_inputs(before, node_id as int));
            lemma_experts_ready(before, node_id as int, i as int);
            assert(slots[i as int] < inputs.len());
            assert(before.has_outlet(inputs[slots[i as int] as int]));
            assert(exclusive_const(before, inputs[slots[i as int] as int]));
            lemma_input_kept(
                before,
                middle,
                node_id as int,
                node_id as int,
                slots[i as int] as int,
            );
            assert(node_repacked(before, cid as int, middle.nodes@[cid as int], node_id as int));
            assert(const_ids@.contains(cid));
        }
        repack_const(model, cid);
        i += 1;
    }
}

/// A mixture of experts that is not eligible is left as it was, and so are the constants
/// that it reads: what it computes stays exactly the same.
pub proof fn law_declined_is_untouched(before: TypedModel, after: TypedModel, k: int, j: int)
    requires
        ready(before),
        repacked(before, after, before.nodes@.len() as int),
        0 <= k < before.nodes@.len(),
        before.nodes@[k].op is MoeFfn,
        !eligible(before, k),
        0 <= j < before.nodes@[k].inputs@.len(),
        before.has_outlet(before.nodes@[k].inputs@[j]),
    ensures
        after.nodes@[k] == before.nodes@[k],
        after.spec_outlet_fact(before.nodes@[k].inputs@[j]) == before.spec_outlet_fact(
            before.nodes@[k].inputs@[j],
        ),
        before.nodes@[k].inputs@[j].slot == 0
            && before.nodes@[before.nodes@[k].inputs@[j].node as int].op is Const
            ==> after.nodes@[before.nodes@[k].inputs@[j].node as int]
            == before.nodes@[before.nodes@[k].inputs@[j].node as int],
{
    let all = before.nodes@.len() as int;
    let c = before.nodes@[k].inputs@[j].node as int;
    lemma_node_kept(before, after, all, k);
    lemma_input_kept(before, after, all, k, j);
    assert(node_repacked(before, c, after.nodes@[c], all));
}

/// A graph without a mixture of experts in the canonical layout is left as it was.
pub proof fn law_linear_is_untouched(before: TypedModel, after: TypedModel)
    requires
        repacked(before, after, before.nodes@.len() as int),
        forall|k: int|
            0 <= k < before.nodes@.len() ==> ((#[trigger] before.nodes@[k]).op matches TypedOp::MoeFfn(
                op,
            ) ==> op.expert_layout == ExpertLayout::Linear),
    ensures
        after.outputs == before.outputs,
        after.nodes@ == before.nodes@,
{
    let all = before.nodes@.len() as int;
    assert forall|k: int| 0 <= k < all implies #[trigger] after.nodes@[k] == before.nodes@[k] by {
        assert(node_repacked(before, k, after.nodes@[k], all));
        if to_transpose(before, k, all) {
            let n = choose|n: int|
                0 <= n < all && eligible(before, n) && #[trigger] holds_experts(before, n, k);
            assert(before.nodes@[n].op is MoeFfn);
        }
    }
    assert(after.nodes@ =~= before.nodes@);
}

/// Dealing with a graph twice is dealing with it once: after the first time no node is
/// eligible, no node fails, and the second time changes nothing.
pub proof fn law_repack_is_idempotent(before: TypedModel, after: TypedModel, again: TypedModel)
    requires
        ready(before),
        forall|k: int| 0 <= k < before.nodes@.len() ==> #[trigger] readable(before, k),
        repacked(before, after, before.nodes@.len() as int),
        repacked(after, again, after.nodes@.len() as int),
    ensures
        forall|k: int| 0 <= k < after.nodes@.len() ==> !#[trigger] eligible(after, k),
        forall|k: int| 0 <= k < after.nodes@.len() ==> #[trigger] readable(after, k),
        again.outputs == after.outputs,
        again.nodes@ == after.nodes@,
{
    let all = before.nodes@.len() as int;
    assert forall|k: int| 0 <= k < all implies !#[trigger] eligible(after, k) && readable(
        after,
        k,
    ) by {
        assert(node_repacked(before, k, after.nodes@[k], all));
        assert(readable(before, k));
        if !eligible(before, k) {
            lemma_node_kept(before, after, all, k);
        }
    }
    assert forall|k: int| 0 <= k < all implies readable(after, k) by {
        assert(!eligible(after, k));
    }
    assert forall|k: int| 0 <= k < all implies #[trigger] again.nodes@[k] == after.nodes@[k] by {
        assert(node_repacked(after, k, again.nodes@[k], all));
        assert(!eligible(after, k));
        if to_transpose(after, k, all) {
            let n = choose|n: int|
                0 <= n < all && eligible(after, n) && #[trigger] holds_experts(after, n, k);
            assert(!eligible(after, n));
        }
    }
    assert(again.nodes@ =~= after.nodes@);
}

/// A mixture of experts that was eligible is one that the routed kernels take afterwards, in
/// the linear layout.
pub proof fn law_repacked_passes_the_gate(before: TypedModel, after: TypedModel, k: int)
    requires
        ready(before),
        repacked(before, after, before.nodes@.len() as int),
        0 <= k < before.nodes@.len(),
        eligible(before, k),
    ensures
        after.inputs_valid(k),
        after.nodes@[k].op matches TypedOp::MoeFfn(op) && op.expert_layout == ExpertLayout::Linear
            && op.activation_supported() && facts_supported(
            op,
            after.spec_input_facts(k),
            ExpertLayout::Linear,
        ),
{
    let all = before.nodes@.len() as int;
    let op = before.nodes@[k].op->MoeFfn_0;
    let inputs = before.nodes@[k].inputs@;
    let facts = before.spec_input_facts(k);
    let facts2 = after.spec_input_facts(k);
    let slots = expert_slots(op);
    assert(has_its_inputs(before, k));
    assert(node_repacked(before, k, after.nodes@[k], all));
    assert(after.nodes@[k].inputs@ == inputs);
    assert forall|j: int| 0 <= j < inputs.len() && !slots.contains(j as usize) implies after.has_outlet(
        #[trigger] inputs[j],
    ) && facts2[j] == facts[j] by {
        assert(before.has_outlet(inputs[j]));
        lemma_input_kept(before, after, all, k, j);
    }
    assert forall|i: int| 0 <= i < slots.len() implies after.has_outlet(
        inputs[#[trigger] slots[i] as int],
    ) && facts2[slots[i] as int].is_quant(BlockQuantFormat::Q4_0) && facts2[slots[i] as int].shape
        == swap_dims(facts[slots[i] as int].shape) by {
        lemma_expert_fact(before, after, k, i);
    }
    assert forall|j: int| 0 <= j < inputs.len() implies after.has_outlet(#[trigger] inputs[j]) by {
        if slots.contains(j as usize) {
            let i = choose|i: int| 0 <= i < slots.len() && slots[i] == j as usize;
            assert(before.nodes@[k].inputs.len() == inputs.len());
            assert(slots[i] == j);
        }
    }
    assert(slots[0] == 2 && slots[1] == 3);
    lemma_gate_inputs(op, facts, facts2);
}

/// The experts of a node that was eligible are `Q4_0` matrices, transposed.
proof fn lemma_expert_fact(before: TypedModel, after: TypedModel, k: int, i: int)
    requires
        ready(before),
        repacked(before, after, before.nodes@.len() as int),
        0 <= k < before.nodes@.len(),
        eligible(before, k),
        0 <= i < expert_slots(before.nodes@[k].op->MoeFfn_0).len(),
    ensures
        ({
            let o = before.nodes@[k].inputs@[expert_slots(
                before.nodes@[k].op->MoeFfn_0,
            )[i] as int];
            &&& after.has_outlet(o)
            &&& after.spec_outlet_fact(o).is_quant(BlockQuantFormat::Q4_0)
            &&& after.spec_outlet_fact(o).shape == swap_dims(before.spec_outlet_fact(o).shape)
        }),
{
    let all = before.nodes@.len() as int;
    let op = before.nodes@[k].op->MoeFfn_0;
    let o = before.nodes@[k].inputs@[expert_slots(op)[i] as int];
    lemma_experts_ready(before, k, i);
    assert(holds_experts(before, k, o.node as int));
    assert(node_repacked(before, o.node as int, after.nodes@[o.node as int], all));
    let t = block_quant(before.nodes@[o.node as int])->0;
    let t2 = block_quant(after.nodes@[o.node as int])->0;
    assert(t2.spec_fact().shape =~= swap_dims(t.spec_fact().shape));
}

/// The shape of a list of matrices once each is transposed.
spec fn swap_dims(shape: Seq<TDim>) -> Seq<TDim> {
    seq![shape[0], shape[2], shape[1]]
}

/// Facts that suit the routed kernels in the canonical layout suit them in the linear one
/// once the shapes of the experts are those of the transposed matrices.
proof fn lemma_gate_inputs(op: MoeFfn, facts: Seq<TypedFactView>, facts2: Seq<TypedFactView>)
    requires
        facts.len() >= op.spec_arity(),
        facts_supported(op, facts, ExpertLayout::Canonical),
        forall|j: int|
            0 <= j < facts.len() && !expert_slots(op).contains(j as usize) ==> #[trigger] facts2[j]
                == facts[j],
        forall|i: int|
            0 <= i < expert_slots(op).len() ==> {
                let f = facts2[#[trigger] expert_slots(op)[i] as int];
                &&& f.is_quant(BlockQuantFormat::Q4_0)
                &&& f.shape == swap_dims(facts[expert_slots(op)[i] as int].shape)
            },
    ensures
        facts_supported(
            MoeFfn { expert_layout: ExpertLayout::Linear, ..op },
            facts2,
            ExpertLayout::Linear,
        ),
{
    let op2 = MoeFfn { expert_layout: ExpertLayout::Linear, ..op };
    let slots = expert_slots(op);
    assert(op2.spec_indexes() == op.spec_indexes());
    assert(slots[0] == 2 && slots[1] == 3);
    assert(op.spec_indexes().w3 matches Some(ix) ==> slots[2] == ix);
    assert(facts2[0] == facts[0] && facts2[1] == facts[1]);
    let ix = op.spec_indexes();
    assert(ix.wg_bias matches Some(p) ==> facts2[p as int] == facts[p as int]);
    assert(ix.w1_bias matches Some(p) ==> facts2[p as int] == facts[p as int]);
    assert(ix.w3_bias matches Some(p) ==> facts2[p as int] == facts[p as int]);
    assert(ix.w2_bias matches Some(p) ==> facts2[p as int] == facts[p as int]);
}

/// A node that is neither a constant nor a mixture of experts is left as it was.
pub proof fn law_others_are_untouched(before: TypedModel, after: TypedModel, upto: int, n: int)
    requires
        repacked(before, after, upto),
        0 <= n < before.nodes@.len(),
        !(before.nodes@[n].op is Const),
        !(before.nodes@[n].op is MoeFfn),
    ensures
        after.nodes@[n] == before.nodes@[n],
{
    assert(node_repacked(before, n, after.nodes@[n], upto));
    if to_transpose(before, n, upto) {
        lemma_to_transpose_is_const(before, n, upto);
    }
}

/// What the graph puts out stays: the same outlets, with the same facts.
pub proof fn law_outputs_keep_their_facts(
    before: TypedModel,
    after: TypedModel,
    upto: int,
    o: OutletId,
)
    requires
        repacked(before, after, upto),
        before.outputs@.contains(o),
        before.has_outlet(o),
    ensures
        after.outputs == before.outputs,
        after.has_outlet(o),
        after.spec_outlet_fact(o) == before.spec_outlet_fact(o),
{
    let c = o.node as int;
    assert(node_repacked(before, c, after.nodes@[c], upto));
    if to_transpose(before, c, upto) && o.slot == 0 {
        let n = choose|n: int|
            0 <= n < upto && eligible(before, n) && #[trigger] holds_experts(before, n, c);
        let op = before.nodes@[n].op->MoeFfn_0;
        let i = choose|i: int|
            0 <= i < expert_slots(op).len() && before.nodes@[n].inputs@[#[trigger] expert_slots(
                op,
            )[i] as int].node == c;
        let q = before.nodes@[n].inputs@[expert_slots(op)[i] as int];
        assert(exclusive_const(before, q));
        assert(q == o);
    }
}

/// An operator is looked at if it is in the canonical layout, computes an activation that the
/// routed kernels compute, and clamps it only if it is gated.
pub proof fn law_candidates(op: MoeFfn)
    ensures
        candidate(op) == (op.expert_layout == ExpertLayout::Canonical && (op.activation@ == "silu"@
            || (op.has_w3 && op.activation@ == "swiglu"@)) && (op.act_limit_bits is Some
            ==> op.has_w3)),
{
}

/// The outlet is that of a block-quantized constant which one inlet reads and the graph does not
/// put out.
pub proof fn law_exclusive_constants(model: TypedModel, o: OutletId)
    ensures
        exclusive_const(model, o) == (o.slot == 0 && (model.nodes@[o.node as int].op matches TypedOp::Const(
            k,
        ) && (*k.val) is BlockQuant) && model.nodes@[o.node as int].outputs@[0].successors@.len()
            == 1 && !model.outputs@.contains(o)),
{
}

/// The shapes of the experts of a list of matrices `w1` fit exactly if all their sizes are known,
/// `w2` has those of `w1` with the last two axes exchanged, `w3` has those of `w1`, and the last
/// two axes are whole blocks of 32.
pub proof fn law_shapes_that_fit(op: MoeFfn, facts: Seq<TypedFactView>)
    requires
        facts[2].shape.len() == 3,
    ensures
        ({
            let (w1, w2, w3) = (facts[2].shape, facts[3].shape, facts[4].shape);
            let size = |d: TDim| d matches TDim::Val(v) && 0 <= v <= usize::MAX;
            shapes_consistent(op, facts) == ({
                &&& size(w1[0]) && size(w1[1]) && size(w1[2])
                &&& w2 == seq![w1[0], w1[2], w1[1]]
                &&& op.has_w3 ==> w3 == w1
                &&& w1[1]->Val_0 as int % 32 == 0
                &&& w1[2]->Val_0 as int % 32 == 0
            })
        }),
{
    let (w1, w2, w3) = (facts[2].shape, facts[3].shape, facts[4].shape);
    let size = |d: TDim| d matches TDim::Val(v) && 0 <= v <= usize::MAX;
    let all = size(w1[0]) && size(w1[1]) && size(w1[2]);
    assert(all == (concrete(w1) is Some)) by {
        if all {
            assert forall|i: int| 0 <= i < w1.len() implies ((#[trigger] w1[i]) matches TDim::Val(v)
                && 0 <= v <= usize::MAX) by {
                assert(i == 0 || i == 1 || i == 2);
            }
        }
        if concrete(w1) is Some {
            assert(size(w1[0]) && size(w1[1]) && size(w1[2]));
        }
    }
    if all {
        let s1 = concrete(w1)->0;
        assert(s1.len() == 3);
        assert(s1[0] == w1[0]->Val_0 && s1[1] == w1[1]->Val_0 && s1[2] == w1[2]->Val_0);
        let turned = seq![w1[0], w1[2], w1[1]];
        assert((concrete(w2) is Some && concrete(w2)->0 == swapped(s1)) == (w2 == turned)) by {
            if w2 == turned {
                assert(concrete(w2) is Some);
                assert(concrete(w2)->0 =~= swapped(s1));
            }
            if concrete(w2) is Some && concrete(w2)->0 == swapped(s1) {
                lemma_concrete_is_faithful(w2, turned);
            }
        }
        if op.has_w3 {
            assert((concrete(w3) == concrete(w1)) == (w3 == w1)) by {
                if concrete(w3) == concrete(w1) {
                    lemma_concrete_is_faithful(w3, w1);
                }
            }
        }
        assert(transposable(s1) == (w1[1]->Val_0 as int % 32 == 0 && w1[2]->Val_0 as int % 32
            == 0));
    }
}

/// Shapes of the same known sizes are the same.
proof fn lemma_concrete_is_faithful(a: Seq<TDim>, b: Seq<TDim>)
    requires
        concrete(a) is Some,
        forall|i: int| 0 <= i < b.len() ==> ((#[trigger] b[i]) matches TDim::Val(v) && 0 <= v
            <= usize::MAX),
        concrete(a)->0.len() == b.len(),
        forall|i: int| 0 <= i < b.len() ==> concrete(a)->0[i] == (#[trigger] b[i])->Val_0,
    ensures
        a == b,
{
    assert(a.len() == b.len());
    assert forall|i: int| 0 <= i < a.len() implies a[i] == b[i] by {
        assert(a[i] matches TDim::Val(v) && 0 <= v <= usize::MAX);
        assert(b[i] is Val);
        assert(concrete(a)->0[i] == a[i]->Val_0 as usize);
    }
    assert(a =~= b);
}

/// The experts of a node are transposed exactly if it is a candidate with all its inputs, the
/// routed kernels would take it, the shapes of the experts fit, and `w1`, `w2` and `w3`, if there
/// is one, are constants that it alone reads.
pub proof fn law_nodes_that_are_repacked(model: TypedModel, n: int)
    ensures
        eligible(model, n) == (model.nodes@[n].op matches TypedOp::MoeFfn(op) && ({
            let facts = model.spec_input_facts(n);
            let inputs = model.nodes@[n].inputs@;
            &&& candidate(op)
            &&& model.inputs_valid(n)
            &&& facts_supported(op, facts, ExpertLayout::Canonical)
            &&& shapes_consistent(op, facts)
            &&& exclusive_const(model, inputs[2])
            &&& exclusive_const(model, inputs[3])
            &&& op.has_w3 ==> exclusive_const(model, inputs[4])
        })),
{
    if let TypedOp::MoeFfn(op) = model.nodes@[n].op {
        let slots = expert_slots(op);
        assert(slots[0] == 2 && slots[1] == 3);
        assert(op.has_w3 ==> slots.len() == 3 && slots[2] == 4);
        assert(!op.has_w3 ==> slots.len() == 2);
        let inputs = model.nodes@[n].inputs@;
        let all = forall|i: int|
            0 <= i < slots.len() ==> exclusive_const(model, inputs[#[trigger] slots[i] as int]);
        if all {
            assert(exclusive_const(model, inputs[slots[0] as int]));
            assert(exclusive_const(model, inputs[slots[1] as int]));
            if op.has_w3 {
                assert(exclusive_const(model, inputs[slots[2] as int]));
            }
        }
        if exclusive_const(model, inputs[2]) && exclusive_const(model, inputs[3]) && (op.has_w3
            ==> exclusive_const(model, inputs[4])) {
            assert forall|i: int| 0 <= i < slots.len() implies exclusive_const(
                model,
                inputs[#[trigger] slots[i] as int],
            ) by {
                assert(i == 0 || i == 1 || i == 2);
            }
        }
    }
}

/// After the experts of a node have been dealt with, the node reads them in the linear layout and
/// is the same in everything else, and each of its expert tensors is the one that it read, every
/// matrix transposed: element `[e, j, i]` stands for what element `[e, i, j]` was, up to the
/// rounding of one step of the block.
pub proof fn law_repacked_weights_are_transposed(
    before: TypedModel,
    after: TypedModel,
    k: int,
    slot: int,
    e: int,
    i: int,
    j: int,
)
    requires
        ready(before),
        repacked(before, after, before.nodes@.len() as int),
        0 <= k < before.nodes@.len(),
        eligible(before, k),
        slot == 2 || slot == 3 || (slot == 4 && before.nodes@[k].op->MoeFfn_0.has_w3),
    ensures
        after.nodes@[k].op is MoeFfn,
        ({
            let (was, is) = (before.nodes@[k].op->MoeFfn_0, after.nodes@[k].op->MoeFfn_0);
            &&& was.expert_layout == ExpertLayout::Canonical
            &&& is.expert_layout == ExpertLayout::Linear
            &&& is.k == was.k && is.activation == was.activation && is.gate == was.gate
            &&& is.has_w3 == was.has_w3 && is.has_wg_bias == was.has_wg_bias
            &&& is.has_w1_bias == was.has_w1_bias && is.has_w3_bias == was.has_w3_bias
            &&& is.has_w2_bias == was.has_w2_bias
            &&& is.act_alpha_bits == was.act_alpha_bits
            &&& is.act_limit_bits == was.act_limit_bits
            &&& after.nodes@[k].inputs == before.nodes@[k].inputs
            &&& after.nodes@[k].name == before.nodes@[k].name
            &&& after.nodes@[k].outputs == before.nodes@[k].outputs
        }),
        ({
            let c = before.nodes@[k].inputs@[slot].node as int;
            let (old, new) = (before.nodes@[c].op, after.nodes@[c].op);
            &&& old is Const && *old->Const_0.val is BlockQuant
            &&& new is Const && *new->Const_0.val is BlockQuant
            &&& ({
                let t = (*old->Const_0.val)->BlockQuant_0;
                let u = (*new->Const_0.val)->BlockQuant_0;
                let (rows, columns) = (t.shape@[1] as int, t.shape@[2] as int);
                let x = q40_unpacked(t.packed@, (e * rows + i) * columns + j);
                let to = (e * columns + j) * rows + i;
                let y = q40_unpacked(u.packed@, to);
                let step = q40_step(u.packed@, to / 32);
                &&& t.format == BlockQuantFormat::Q4_0 && u.format == BlockQuantFormat::Q4_0
                &&& u.datum_type == t.datum_type
                &&& t.shape@.len() == 3
                &&& u.shape@ == seq![t.shape@[0], t.shape@[2], t.shape@[1]]
                &&& after.nodes@[c].outputs@[0].fact@.datum_type == t.datum_type
                &&& after.nodes@[c].outputs@[0].fact@.shape == seq![
                    TDim::Val(t.shape@[0] as i64),
                    TDim::Val(t.shape@[2] as i64),
                    TDim::Val(t.shape@[1] as i64),
                ]
                &&& after.nodes@[c].outputs@[0].fact@.exotic == (ExoticFactView::BlockQuant {
                    format: BlockQuantFormat::Q4_0,
                    shape: u.shape@,
                })
                &&& after.nodes@[c].outputs@[0].fact@.device is None
                &&& after.nodes@[c].outputs@[0].successors == before.nodes@[c].outputs@[0].successors
                &&& new->Const_0.exotic is Some
                &&& new->Const_0.exotic->0@ == after.nodes@[c].outputs@[0].fact@.exotic
                &&& steps_finite(t.packed@) && 0 <= e < t.shape@[0] && 0 <= i < rows && 0 <= j
                    < columns ==> 128 * (x - y) <= 129 * abs(step) + 512 && 128 * (y - x) <= 129
                    * abs(step) + 512
            })
        }),
{
    let all = before.nodes@.len() as int;
    let op = before.nodes@[k].op->MoeFfn_0;
    let at = slot - 2;
    assert(expert_slots(op)[at] == slot);
    assert(has_its_inputs(before, k));
    let o = before.nodes@[k].inputs@[slot];
    lemma_experts_ready(before, k, at);
    assert(holds_experts(before, k, o.node as int));
    assert(node_repacked(before, k, after.nodes@[k], all));
    assert(node_repacked(before, o.node as int, after.nodes@[o.node as int], all));
    let t = block_quant(before.nodes@[o.node as int])->0;
    let u = block_quant(after.nodes@[o.node as int])->0;
    assert(is_transposed(t, u));
    assert(u.spec_fact().shape =~= seq![
        TDim::Val(t.shape@[0] as i64),
        TDim::Val(t.shape@[2] as i64),
        TDim::Val(t.shape@[1] as i64),
    ]);
    if steps_finite(t.packed@) && 0 <= e < t.shape@[0] && 0 <= i < t.shape@[1] && 0 <= j
        < t.shape@[2] {
        law_elements_are_transposed(t, u, e, i, j);
    }
}

/// Where dealing with the nodes fails, it is at the first mixture of experts that is looked at
/// and reads an outlet that the graph does not have, and that outlet is the error.
pub proof fn law_where_repacking_fails(
    before: TypedModel,
    after: TypedModel,
    k: int,
    e: InvalidOutlet,
    n: int,
    s: int,
)
    requires
        stops_at(before, after, k, e),
        0 <= n < k,
        before.nodes@[n].op matches TypedOp::MoeFfn(op) && candidate(op),
        0 <= s < before.nodes@[n].inputs@.len(),
    ensures
        before.nodes@[k].op is MoeFfn && candidate(before.nodes@[k].op->MoeFfn_0),
        before.nodes@[k].inputs@.contains(e.outlet),
        e.outlet.node >= before.nodes@.len() || e.outlet.slot
            >= before.nodes@[e.outlet.node as int].outputs@.len(),
        ({
            let o = before.nodes@[n].inputs@[s];
            o.node < before.nodes@.len() && o.slot < before.nodes@[o.node as int].outputs@.len()
        }),
{
    assert(readable(before, n));
    assert(before.has_outlet(before.nodes@[n].inputs@[s]));
}

/// Either variable alone switches the transposition of experts off, and nothing else does.
pub proof fn law_what_switches_repacking_off(a: Option<&str>, b: Option<&str>)
    ensures
        repack_disabled(a, b) == repack_disabled(b, a),
        repack_disabled(None, None) == false,
        repack_disabled(a, b) == (repack_disabled(a, None) || repack_disabled(None, b)),
        repack_disabled(a, None) == (a is Some && flag_set(Some(a->0@))),
{
}

/// A graph whose outlets know who reads them, whose mixtures of experts have all the inputs that
/// they say, and whose block-quantized constants are described by their facts can be dealt with.
pub proof fn law_ordinary_graphs_are_ready(model: TypedModel)
    requires
        forall|n: int, s: int|
            0 <= n < model.nodes@.len() && 0 <= s < model.nodes@[n].inputs@.len()
                ==> #[trigger] model.edge_consistent(n, s),
        forall|n: int|
            0 <= n < model.nodes@.len() ==> ((#[trigger] model.nodes@[n]).op matches TypedOp::MoeFfn(
                op,
            ) ==> model.nodes@[n].inputs@.len() == op.spec_arity()),
        forall|n: int| 0 <= n < model.nodes@.len() ==> #[trigger] model.const_described(n),
    ensures
        ready(model),
{
    assert forall|n: int| 0 <= n < model.nodes@.len() implies #[trigger] has_its_inputs(model, n)
        && experts_described(model, n) by {
        assert(model.nodes@[n].op matches TypedOp::MoeFfn(op) ==> model.nodes@[n].inputs@.len()
            == op.spec_arity());
        if eligible(model, n) {
            let op = model.nodes@[n].op->MoeFfn_0;
            let inputs = model.nodes@[n].inputs@;
            assert forall|i: int| 0 <= i < expert_slots(op).len() implies model.const_described(
                inputs[#[trigger] expert_slots(op)[i] as int].node as int,
            ) by {
                assert(model.has_outlet(inputs[expert_slots(op)[i] as int]));
            }
        }
    }
}

/// An edge is consistent if the outlet that is read, where there is one, lists the inlet that
/// reads it; a constant is described if its first outlet has its fact.
pub proof fn law_edges_and_descriptions(model: TypedModel, n: int, s: int)
    ensures
        ({
            let o = model.nodes@[n].inputs@[s];
            let there = o.node < model.nodes@.len() && o.slot
                < model.nodes@[o.node as int].outputs@.len();
            model.edge_consistent(n, s) == (there
                ==> model.nodes@[o.node as int].outputs@[o.slot as int].successors@.contains(
                InletId { node: n as usize, slot: s as usize },
            ))
        }),
        !(model.nodes@[n].op is Const) ==> model.const_described(n),
        model.nodes@[n].op matches TypedOp::Const(k) ==> match *k.val {
            Tensor::Other { .. } => model.const_described(n),
            Tensor::BlockQuant(t) => model.const_described(n) == (t.wf() && (
            model.nodes@[n].outputs@.len() == 0 || model.nodes@[n].outputs@[0].fact@
                == t.spec_fact())),
        },
{
}

/// A constant that holds no experts of a node that is dealt with is left as it was.
pub proof fn law_other_constants_are_untouched(
    before: TypedModel,
    after: TypedModel,
    upto: int,
    c: int,
)
    requires
        repacked(before, after, upto),
        0 <= c < before.nodes@.len(),
        !(before.nodes@[c].op is MoeFfn),
        forall|n: int|
            0 <= n < upto && #[trigger] eligible(before, n) ==> ({
                let inputs = before.nodes@[n].inputs@;
                &&& inputs[2].node != c && inputs[3].node != c
                &&& before.nodes@[n].op->MoeFfn_0.has_w3 ==> inputs[4].node != c
            }),
    ensures
        after.nodes@[c] == before.nodes@[c],
{
    assert(node_repacked(before, c, after.nodes@[c], upto));
    if to_transpose(before, c, upto) {
        let n = choose|n: int|
            0 <= n < upto && eligible(before, n) && #[trigger] holds_experts(before, n, c);
        let op = before.nodes@[n].op->MoeFfn_0;
        assert(eligible(before, n));
        let i = choose|i: int|
            0 <= i < expert_slots(op).len() && before.nodes@[n].inputs@[#[trigger] expert_slots(
                op,
            )[i] as int].node == c;
        assert(i == 0 || i == 1 || i == 2);
    }
}

/// Where dealing with the nodes fails, what came before it is done and what comes behind it is
/// not: the mixtures of experts that are eligible read the linear layout before the failing node
/// and are untouched from there on. The outlet of the error is the first that is missing.
pub proof fn law_what_a_failure_leaves(
    before: TypedModel,
    after: TypedModel,
    k: int,
    e: InvalidOutlet,
    n: int,
    s: int,
)
    requires
        stops_at(before, after, k, e),
        0 <= n < before.nodes@.len(),
        before.nodes@[n].op is MoeFfn,
        0 <= s < before.nodes@[k].inputs@.len(),
    ensures
        n < k && eligible(before, n) ==> after.nodes@[n].op == TypedOp::MoeFfn(
            MoeFfn { expert_layout: ExpertLayout::Linear, ..before.nodes@[n].op->MoeFfn_0 },
        ),
        n >= k || !eligible(before, n) ==> after.nodes@[n] == before.nodes@[n],
        !before.has_outlet(before.nodes@[k].inputs@[s]) && (forall|t: int|
            0 <= t < s ==> before.has_outlet(#[trigger] before.nodes@[k].inputs@[t])) ==> e.outlet
            == before.nodes@[k].inputs@[s],
        after.outputs == before.outputs,
        after.nodes@.len() == before.nodes@.len(),
{
    assert(node_repacked(before, n, after.nodes@[n], k));
    if to_transpose(before, n, k) {
        lemma_to_transpose_is_const(before, n, k);
    }
    let i = choose|i: int|
        {
            &&& 0 <= i < before.nodes@[k].inputs@.len()
            &&& #[trigger] before.nodes@[k].inputs@[i] == e.outlet
            &&& !before.has_outlet(e.outlet)
            &&& forall|j: int|
                0 <= j < i ==> before.has_outlet(#[trigger] before.nodes@[k].inputs@[j])
        };
    if !before.has_outlet(before.nodes@[k].inputs@[s]) && (forall|t: int|
        0 <= t < s ==> before.has_outlet(#[trigger] before.nodes@[k].inputs@[t])) {
        if i < s {
            assert(before.has_outlet(before.nodes@[k].inputs@[i]));
        }
        assert(i == s);
    }
}

/// A graph that can be dealt with has, of each mixture of experts that is looked at, the inputs
/// that are looked at, and a graph with an edge that its outlet does not know cannot be dealt
/// with.
pub proof fn law_what_is_checked_first(model: TypedModel, n: int, s: int)
    requires
        ready(model),
        0 <= n < model.nodes@.len(),
    ensures
        0 <= s < model.nodes@[n].inputs@.len() ==> model.edge_consistent(n, s),
        has_its_inputs(model, n),
        model.nodes@[n].op matches TypedOp::MoeFfn(op) ==> (candidate(op) && model.inputs_valid(n)
            ==> model.nodes@[n].inputs@.len() >= 4 + (if op.has_w3 {
            1int
        } else {
            0int
        })),
{
    assert(has_its_inputs(model, n));
}

} // verus!
