//! Typed graphs: nodes that run an operator on outlets of other nodes.

use crate::datum::DatumType;
use crate::fact::{ExoticFact, TypedFact, TypedFactView};
use crate::list::{lists, Distinct};
use crate::moe::MoeFfn;
use crate::weights::BlockQuantTensor;
use std::sync::Arc;
use vstd::prelude::*;

verus! {

/// One output of a node.
#[derive(Debug, Clone, Copy, PartialEq, Eq, Structural, Hash)]
pub struct OutletId {
    pub node: usize,
    pub slot: usize,
}

impl Distinct for OutletId {
    fn equals(&self, other: &Self) -> (r: bool) {
        *self == *other
    }
}

/// One input of a node.
#[derive(Debug, Clone, Copy, PartialEq, Eq, Structural, Hash)]
pub struct InletId {
    pub node: usize,
    pub slot: usize,
}

impl Distinct for InletId {
    fn equals(&self, other: &Self) -> (r: bool) {
        *self == *other
    }
}

/// A tensor held by a graph.
#[derive(Debug)]
pub enum Tensor {
    BlockQuant(BlockQuantTensor),
    /// A tensor in any other storage, numbered.
    Other { datum_type: DatumType, id: u64 },
}

/// A constant, with the fact that comes with an exotic storage.
#[derive(Debug)]
pub struct Const {
    pub val: Arc<Tensor>,
    pub exotic: Option<ExoticFact>,
}

/// A matrix product, batched over the leading axes.
#[derive(Debug, Clone, Copy, PartialEq, Eq, Structural)]
pub struct PrefixMatMul {
    pub transpose_a: bool,
    pub transpose_b: bool,
    pub transpose_c: bool,
    pub quantize_output: Option<DatumType>,
    pub operating_dt: Option<DatumType>,
}

/// The operator of a node.
#[derive(Debug)]
pub enum TypedOp {
    PrefixMatMul(PrefixMatMul),
    Conv,
    Const(Const),
    MoeFfn(MoeFfn),
    /// Any other operator, by the number of its type.
    Other(u64),
}

/// An output of a node and the inlets that read it.
#[derive(Debug)]
pub struct Outlet {
    pub fact: TypedFact,
    pub successors: Vec<InletId>,
}

/// A node of a graph.
#[derive(Debug)]
pub struct TypedNode {
    pub name: String,
    pub inputs: Vec<OutletId>,
    pub op: TypedOp,
    pub outputs: Vec<Outlet>,
}

/// A graph. The identifier of a node is its place in `nodes`.
#[derive(Debug)]
pub struct TypedModel {
    pub nodes: Vec<TypedNode>,
    pub outputs: Vec<OutletId>,
}

/// An outlet that a graph does not have.
#[derive(Debug, Clone, Copy, PartialEq, Eq, Structural)]
pub struct InvalidOutlet {
    pub outlet: OutletId,
}

impl TypedModel {
    /// The graph has the outlet.
    pub open spec fn has_outlet(&self, outlet: OutletId) -> bool {
        outlet.node < self.nodes@.len() && outlet.slot < self.nodes@[outlet.node as int].outputs@.len()
    }

    /// The fact of an outlet.
    pub open spec fn spec_outlet_fact(&self, outlet: OutletId) -> TypedFactView {
        self.nodes@[outlet.node as int].outputs@[outlet.slot as int].fact@
    }

    /// Every input of the node is an outlet of the graph.
    pub open spec fn inputs_valid(&self, node: int) -> bool {
        forall|i: int|
            0 <= i < self.nodes@[node].inputs@.len() ==> self.has_outlet(
                #[trigger] self.nodes@[node].inputs@[i],
            )
    }

    /// The facts of the inputs of a node.
    pub open spec fn spec_input_facts(&self, node: int) -> Seq<TypedFactView> {
        self.nodes@[node].inputs@.map_values(|o: OutletId| self.spec_outlet_fact(o))
    }

    /// What is known of the outputs of the graph, in order.
    pub open spec fn interface(&self) -> Seq<TypedFactView> {
        self.outputs@.map_values(|o: OutletId| self.spec_outlet_fact(o))
    }

    /// The outputs of the graph are outlets of it.
    pub open spec fn outputs_valid(&self) -> bool {
        forall|i: int| 0 <= i < self.outputs@.len() ==> self.has_outlet(#[trigger] self.outputs@[i])
    }

    /// The outlet that a node reads through a slot knows that it does, where the graph has
    /// that outlet.
    pub open spec fn edge_consistent(&self, n: int, s: int) -> bool {
        let o = self.nodes@[n].inputs@[s];
        self.has_outlet(o)
            ==> self.nodes@[o.node as int].outputs@[o.slot as int].successors@.contains(
            InletId { node: n as usize, slot: s as usize },
        )
    }

    /// Outlets know the inlets that read them.
    pub open spec fn edges_consistent(&self) -> bool {
        forall|n: int, s: int|
            0 <= n < self.nodes@.len() && 0 <= s < self.nodes@[n].inputs@.len()
                ==> #[trigger] self.edge_consistent(n, s)
    }

    /// A block-quantized constant is described by the fact of its outlet.
    pub open spec fn const_described(&self, n: int) -> bool {
        self.nodes@[n].op matches TypedOp::Const(k) ==> (*k.val matches Tensor::BlockQuant(t) ==> {
            &&& t.wf()
            &&& self.nodes@[n].outputs@.len() > 0 ==> self.nodes@[n].outputs@[0].fact@
                == t.spec_fact()
        })
    }

    /// The fact of an outlet, or an error where the graph has no such outlet.
    pub fn outlet_fact(&self, outlet: OutletId) -> (r: Result<&TypedFact, InvalidOutlet>)
        ensures
            match r {
                Ok(f) => self.has_outlet(outlet) && f@ == self.spec_outlet_fact(outlet),
                Err(e) => !self.has_outlet(outlet) && e.outlet == outlet,
            },
            r is Ok == (outlet.node < self.nodes@.len() && outlet.slot
                < self.nodes@[outlet.node as int].outputs@.len()),
            r matches Ok(f) ==> *f
                == self.nodes@[outlet.node as int].outputs@[outlet.slot as int].fact,
    {
        if outlet.node < self.nodes.len() && outlet.slot < self.nodes[outlet.node].outputs.len() {
            Ok(&self.nodes[outlet.node].outputs[outlet.slot].fact)
        } else {
            Err(InvalidOutlet { outlet })
        }
    }

    /// The facts of the inputs of a node, or an error that names the first input that is no
    /// outlet of the graph.
    pub fn node_input_facts(&self, node: usize) -> (r: Result<Vec<TypedFact>, InvalidOutlet>)
        requires
            node < self.nodes@.len(),
        ensures
            match r {
                Ok(facts) => self.inputs_valid(node as int) && crate::fact::fact_views(facts@)
                    == self.spec_input_facts(node as int),
                Err(e) => exists|i: int|
                    {
                        &&& 0 <= i < self.nodes@[node as int].inputs@.len()
                        &&& #[trigger] self.nodes@[node as int].inputs@[i] == e.outlet
                        &&& !self.has_outlet(e.outlet)
                        &&& forall|j: int|
                            0 <= j < i ==> self.has_outlet(
                                #[trigger] self.nodes@[node as int].inputs@[j],
                            )
                    },
            },
            r matches Ok(facts) ==> facts@.len() == self.nodes@[node as int].inputs@.len()
                && forall|i: int|
                0 <= i < facts@.len() ==> ({
                    let o = self.nodes@[node as int].inputs@[i];
                    &&& o.node < self.nodes@.len()
                    &&& o.slot < self.nodes@[o.node as int].outputs@.len()
                    &&& (#[trigger] facts@[i])@
                        == self.nodes@[o.node as int].outputs@[o.slot as int].fact@
                }),
    {
        let mut facts: Vec<TypedFact> = Vec::new();
        let mut i: usize = 0;
        while i < self.nodes[node].inputs.len()
            invariant
                node < self.nodes@.len(),
                i <= self.nodes@[node as int].inputs@.len(),
                facts@.len() == i,
                forall|j: int|
                    0 <= j < i ==> self.has_outlet(#[trigger] self.nodes@[node as int].inputs@[j]),
                forall|j: int|
                    0 <= j < i ==> (#[trigger] facts@[j])@ == self.spec_outlet_fact(
                        self.nodes@[node as int].inputs@[j],
                    ),
            decreases self.nodes@[node as int].inputs@.len() - i,
        {
            match self.outlet_fact(self.nodes[node].inputs[i]) {
                Ok(f) => facts.push(f.duplicate()),
                Err(e) => {
                    assert(self.nodes@[node as int].inputs@[i as int] == e.outlet);
                    return Err(e);
                },
            }
            i += 1;
        }
        assert(crate::fact::fact_views(facts@) =~= self.spec_input_facts(node as int));
        Ok(facts)
    }

    /// Whether every input that is an outlet of the graph is among the successors of that
    /// outlet.
    pub fn has_consistent_edges(&self) -> (r: bool)
        ensures
            r == self.edges_consistent(),
    {
        let mut n: usize = 0;
        while n < self.nodes.len()
            invariant
                n <= self.nodes@.len(),
                forall|m: int, s: int|
                    0 <= m < n && 0 <= s < self.nodes@[m].inputs@.len()
                        ==> #[trigger] self.edge_consistent(m, s),
            decreases self.nodes@.len() - n,
        {
            let mut s: usize = 0;
            while s < self.nodes[n].inputs.len()
                invariant
                    n < self.nodes@.len(),
                    s <= self.nodes@[n as int].inputs@.len(),
                    forall|m: int, s: int|
                        0 <= m < n && 0 <= s < self.nodes@[m].inputs@.len()
                            ==> #[trigger] self.edge_consistent(m, s),
                    forall|t: int| 0 <= t < s ==> #[trigger] self.edge_consistent(n as int, t),
                decreases self.nodes@[n as int].inputs@.len() - s,
            {
                let o = self.nodes[n].inputs[s];
                if o.node < self.nodes.len() && o.slot < self.nodes[o.node].outputs.len() {
                    let inlet = InletId { node: n, slot: s };
                    if !lists(&self.nodes[o.node].outputs[o.slot].successors, &inlet) {
                        assert(!self.edge_consistent(n as int, s as int));
                        return false;
                    }
                }
                assert(self.edge_consistent(n as int, s as int));
                s += 1;
            }
            n += 1;
        }
        true
    }

    /// Whether the node is described by its fact, if it is a block-quantized constant.
    pub fn is_const_described(&self, n: usize) -> (r: bool)
        requires
            n < self.nodes@.len(),
        ensures
            r == self.const_described(n as int),
    {
        let node = &self.nodes[n];
        match &node.op {
            TypedOp::Const(k) => match &*k.val {
                Tensor::BlockQuant(t) => t.is_well_formed() && (node.outputs.len() == 0
                    || node.outputs[0].fact.same(&t.fact())),
                _ => true,
            },
            _ => true,
        }
    }
}

/// An outlet is there if its node is and has the slot. The inputs of a node, and the outputs of a
/// graph, are valid if each of them is there, and have the facts of those outlets, in order.
pub proof fn law_outlets_of_a_graph(model: TypedModel, outlet: OutletId, n: int, i: int)
    ensures
        model.has_outlet(outlet) == (outlet.node < model.nodes@.len() && outlet.slot
            < model.nodes@[outlet.node as int].outputs@.len()),
        model.inputs_valid(n) == (forall|k: int|
            0 <= k < model.nodes@[n].inputs@.len() ==> model.has_outlet(
                #[trigger] model.nodes@[n].inputs@[k],
            )),
        model.outputs_valid() == (forall|k: int|
            0 <= k < model.outputs@.len() ==> model.has_outlet(#[trigger] model.outputs@[k])),
        model.spec_input_facts(n).len() == model.nodes@[n].inputs@.len(),
        model.interface().len() == model.outputs@.len(),
        0 <= i < model.nodes@[n].inputs@.len() ==> ({
            let o = model.nodes@[n].inputs@[i];
            model.spec_input_facts(n)[i]
                == model.nodes@[o.node as int].outputs@[o.slot as int].fact@
        }),
        0 <= i < model.outputs@.len() ==> ({
            let o = model.outputs@[i];
            model.interface()[i] == model.nodes@[o.node as int].outputs@[o.slot as int].fact@
        }),
        model.edges_consistent() == (forall|m: int, s: int|
            0 <= m < model.nodes@.len() && 0 <= s < model.nodes@[m].inputs@.len()
                ==> #[trigger] model.edge_consistent(m, s)),
{
}

} // verus!
