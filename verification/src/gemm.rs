//! Kernels for matrix products, and which of them takes a product.

use crate::dim::{
    batch_size, is_multipliable, law_known_sizes_multiply, magnitude_product, multipliable,
    product_divisor, DimTable, DimTableView, TDim,
};
use crate::fact::{BlockQuantFormat, ExoticFact, ExoticFactView, TypedFact, TypedFactView};
use crate::list::lists;
use crate::matmul::MatmulError;
use vstd::prelude::*;

verus! {

/// A family of kernels for matrix products.
#[derive(Debug, Clone, Copy, PartialEq, Eq, Structural, Hash)]
pub enum MetalGemmImplKind {
    Mlx,
    Mfa,
    Ggml,
}

/// The name of a family of kernels.
pub open spec fn gemm_name(kind: MetalGemmImplKind) -> Seq<char> {
    match kind {
        MetalGemmImplKind::Mlx => "mlx"@,
        MetalGemmImplKind::Mfa => "mfa"@,
        MetalGemmImplKind::Ggml => "ggml"@,
    }
}

/// The families of kernels, in the order in which they are listed.
pub open spec fn gemm_kinds() -> Seq<MetalGemmImplKind> {
    seq![MetalGemmImplKind::Mlx, MetalGemmImplKind::Mfa, MetalGemmImplKind::Ggml]
}

impl MetalGemmImplKind {
    /// The families of kernels.
    pub fn variants() -> (r: Vec<MetalGemmImplKind>)
        ensures
            r@ == gemm_kinds(),
    {
        let r = vec![Self::Mlx, Self::Mfa, Self::Ggml];
        assert(r@ =~= gemm_kinds());
        r
    }

    /// The names of the families of kernels, in the same order.
    pub fn variants_str() -> (r: Vec<&'static str>)
        ensures
            r@.map_values(|s: &'static str| s@) == gemm_kinds().map_values(
                |k: MetalGemmImplKind| gemm_name(k),
            ),
    {
        let variants = Self::variants();
        let mut names: Vec<&'static str> = Vec::new();
        let mut i: usize = 0;
        while i < variants.len()
            invariant
                variants@ == gemm_kinds(),
                i <= variants@.len(),
                names@.len() == i,
                forall|j: int| 0 <= j < i ==> (#[trigger] names@[j])@ == gemm_name(variants@[j]),
            decreases variants@.len() - i,
        {
            names.push(variants[i].to_str());
            i += 1;
        }
        assert(names@.map_values(|s: &'static str| s@) =~= gemm_kinds().map_values(
            |k: MetalGemmImplKind| gemm_name(k),
        ));
        names
    }

    /// The name of the family of kernels.
    pub fn to_str(&self) -> (r: &'static str)
        ensures
            r@ == gemm_name(*self),
    {
        match self {
            Self::Mlx => "mlx",
            Self::Mfa => "mfa",
            Self::Ggml => "ggml",
        }
    }
}

/// What the kernels answer on the element types of two inputs.
#[derive(Debug, Clone, Copy, PartialEq, Eq, Structural)]
pub struct GemmSupport {
    /// The MLX kernel takes the inputs.
    pub mlx: bool,
    /// The MFA kernel takes the inputs.
    pub mfa: bool,
    /// The GGML kernel takes the inputs.
    pub ggml: bool,
    /// The GGML kernel takes the inputs the other way round.
    pub ggml_swapped: bool,
}

/// Whether some kernel takes the inputs of a product.
pub fn check_matmul_in_dts(support: GemmSupport) -> (r: bool)
    ensures
        r == (support.mlx || support.mfa || support.ggml || support.ggml_swapped),
{
    support.mlx || support.mfa || support.ggml || support.ggml_swapped
}

/// The axes of the second input that batch the product: all of them where it is packed in
/// `Q4_0` blocks, else all but the last two.
pub open spec fn b_batch(b: TypedFactView) -> Seq<TDim> {
    if b.is_quant(BlockQuantFormat::Q4_0) {
        b.shape
    } else {
        b.shape.take(b.shape.len() - 2)
    }
}

/// The axes of the first input that batch the product: all but the last two.
pub open spec fn a_batch(a: TypedFactView) -> Seq<TDim> {
    a.shape.take(a.shape.len() - 2)
}

/// The axes of the first input that count for its batch: those that are no bare symbol, or
/// a symbol that the second input has too.
pub open spec fn counted(a_dims: Seq<TDim>, b_dims: Seq<TDim>) -> Seq<TDim> {
    a_dims.filter(|d: TDim| !(d is Sym) || b_dims.contains(d))
}

/// One batch is a multiple of the other, and the two differ, or the first holds a symbol of
/// its own.
pub open spec fn broadcasts(a_size: nat, b_size: nat, symb_in_a: bool) -> bool {
    a_size % b_size == 0 && (a_size != b_size || symb_in_a)
}

/// The second input is broadcast over the batch of the first.
pub open spec fn input_broadcast(
    table: DimTableView,
    a: TypedFactView,
    b: TypedFactView,
) -> bool {
    let dims = counted(a_batch(a), b_batch(b));
    broadcasts(
        product_divisor(table, dims),
        product_divisor(table, b_batch(b)),
        dims != a_batch(a),
    )
}

/// The sizes of the batches can be told: each input has two axes besides (but for `Q4_0`
/// weights), the dimensions can be multiplied, and the batch of the second input is not
/// empty.
pub open spec fn batches_known(table: DimTableView, a: TypedFactView, b: TypedFactView) -> bool {
    &&& a.rank() >= 2
    &&& b.is_quant(BlockQuantFormat::Q4_0) || b.rank() >= 2
    &&& multipliable(table, counted(a_batch(a), b_batch(b)))
    &&& multipliable(table, b_batch(b))
    &&& product_divisor(table, b_batch(b)) != 0
}

/// Whether one batch is a multiple of the other, and the two differ, or the first holds a
/// symbol of its own.
pub fn is_broadcast(a_size: u64, b_size: u64, symb_in_a: bool) -> (r: bool)
    requires
        b_size != 0,
    ensures
        r == broadcasts(a_size as nat, b_size as nat, symb_in_a),
        r == (a_size % b_size == 0 && (a_size != b_size || symb_in_a)),
{
    a_size % b_size == 0 && (a_size != b_size || symb_in_a)
}

/// The first axes of a shape.
fn leading(shape: &Vec<TDim>, n: usize) -> (r: Vec<TDim>)
    requires
        n <= shape@.len(),
    ensures
        r@ == shape@.take(n as int),
{
    let mut dims: Vec<TDim> = Vec::new();
    let mut i: usize = 0;
    while i < n
        invariant
            i <= n <= shape@.len(),
            dims@ == shape@.take(i as int),
        decreases n - i,
    {
        dims.push(shape[i]);
        i += 1;
        assert(dims@ =~= shape@.take(i as int));
    }
    dims
}

/// The axes of the first input that count for its batch.
fn retain_counted(a_dims: &Vec<TDim>, b_dims: &Vec<TDim>) -> (r: Vec<TDim>)
    ensures
        r@ == counted(a_dims@, b_dims@),
        (r@.len() == a_dims@.len()) == (r@ == a_dims@),
{
    let ghost keep = |d: TDim| !(d is Sym) || b_dims@.contains(d);
    let mut dims: Vec<TDim> = Vec::new();
    let mut i: usize = 0;
    assert(a_dims@.take(0).filter(keep) =~= Seq::<TDim>::empty()) by {
        reveal(Seq::filter);
    }
    while i < a_dims.len()
        invariant
            keep == (|d: TDim| !(d is Sym) || b_dims@.contains(d)),
            i <= a_dims@.len(),
            dims@ == a_dims@.take(i as int).filter(keep),
            dims@.len() <= i,
            dims@.len() == i ==> dims@ == a_dims@.take(i as int),
        decreases a_dims@.len() - i,
    {
        let d = a_dims[i];
        proof {
            reveal(Seq::filter);
            assert(a_dims@.take(i + 1).drop_last() =~= a_dims@.take(i as int));
        }
        let symbol = match d {
            TDim::Sym(_) => true,
            _ => false,
        };
        if !symbol || lists(b_dims, &d) {
            dims.push(d);
            assert(dims@.len() == i + 1 ==> dims@ =~= a_dims@.take(i + 1));
        }
        i += 1;
    }
    assert(a_dims@.take(i as int) =~= a_dims@);
    dims
}

/// Whether the sizes of the batches can be told.
pub fn batches_are_known(table: &DimTable, a: &TypedFact, b: &TypedFact) -> (r: bool)
    requires
        table.wf(),
    ensures
        r == batches_known(table@, a@, b@),
{
    let quant = b.as_quant_fact(BlockQuantFormat::Q4_0);
    if a.rank() < 2 || (!quant && b.rank() < 2) {
        return false;
    }
    let n = if quant {
        b.rank()
    } else {
        b.rank() - 2
    };
    let b_dims = leading(&b.shape, n);
    assert(b_dims@ =~= b_batch(b@));
    let a_dims = retain_counted(&leading(&a.shape, a.rank() - 2), &b_dims);
    is_multipliable(table, &a_dims) && is_multipliable(table, &b_dims) && batch_size(
        table,
        &b_dims,
    ) != 0
}

/// Whether the second input is broadcast over the batch of the first.
pub fn is_input_broadcast(table: &DimTable, facts: &Vec<TypedFact>) -> (r: bool)
    requires
        facts@.len() >= 2,
        table.wf(),
        batches_known(table@, facts@[0]@, facts@[1]@),
    ensures
        r == input_broadcast(table@, facts@[0]@, facts@[1]@),
{
    // The weights are taken to stand second.
    let b_batch_dims = if facts[1].as_quant_fact(BlockQuantFormat::Q4_0) {
        let n = facts[1].rank();
        let dims = leading(&facts[1].shape, n);
        assert(dims@ =~= facts@[1].shape@);
        dims
    } else {
        leading(&facts[1].shape, facts[1].rank() - 2)
    };
    let all_dims = leading(&facts[0].shape, facts[0].rank() - 2);
    let a_batch_dims = retain_counted(&all_dims, &b_batch_dims);
    let symb_in_a = a_batch_dims.len() != all_dims.len();
    let a_batch_size = batch_size(table, &a_batch_dims);
    let b_batch_size = batch_size(table, &b_batch_dims);
    is_broadcast(a_batch_size, b_batch_size, symb_in_a)
}

/// The kernel is told by the inputs alone, without looking at their batches.
pub open spec fn plainly_ggml(a: TypedFactView, b: TypedFactView) -> bool {
    ||| a.is_quant(BlockQuantFormat::Q4_0)
    ||| b.is_quant(BlockQuantFormat::Q4_0)
    ||| a.datum_type != b.datum_type
}

/// The family of kernels that takes a product: the one asked for, or else GGML for packed
/// weights, mixed element types and broadcast weights, and MLX for everything else.
pub open spec fn resolved_gemm(
    gemm_impl: Option<MetalGemmImplKind>,
    table: DimTableView,
    a: TypedFactView,
    b: TypedFactView,
) -> MetalGemmImplKind {
    match gemm_impl {
        Some(gemm) => gemm,
        None => if plainly_ggml(a, b) || input_broadcast(table, a, b) {
            MetalGemmImplKind::Ggml
        } else {
            MetalGemmImplKind::Mlx
        },
    }
}

/// The family of kernels that takes a product of the inputs.
pub fn resolve_gemm_impl(
    gemm_impl: Option<MetalGemmImplKind>,
    table: &DimTable,
    input_facts: &Vec<TypedFact>,
) -> (r: Result<MetalGemmImplKind, MatmulError>)
    requires
        table.wf(),
        gemm_impl is None ==> input_facts@.len() >= 2,
        gemm_impl is None && !plainly_ggml(input_facts@[0]@, input_facts@[1]@) ==> batches_known(
            table@,
            input_facts@[0]@,
            input_facts@[1]@,
        ),
    ensures
        r == Ok::<MetalGemmImplKind, MatmulError>(
            resolved_gemm(gemm_impl, table@, input_facts@[0]@, input_facts@[1]@),
        ),
        gemm_impl matches Some(asked) ==> r == Ok::<MetalGemmImplKind, MatmulError>(asked),
        gemm_impl is None ==> ({
            let (a, b) = (input_facts@[0], input_facts@[1]);
            let packed = |f: TypedFact|
                f.device is None && (f.exotic matches ExoticFact::BlockQuant { format, .. }
                    && format == BlockQuantFormat::Q4_0);
            let ggml = packed(a) || packed(b) || a.datum_type != b.datum_type || input_broadcast(
                table@,
                a@,
                b@,
            );
            &&& ggml ==> r == Ok::<MetalGemmImplKind, MatmulError>(MetalGemmImplKind::Ggml)
            &&& !ggml ==> r == Ok::<MetalGemmImplKind, MatmulError>(MetalGemmImplKind::Mlx)
        }),
{
    if let Some(gemm) = gemm_impl {
        Ok(gemm)
    } else if input_facts[0].as_quant_fact(BlockQuantFormat::Q4_0) || input_facts[1].as_quant_fact(
        BlockQuantFormat::Q4_0,
    ) || input_facts[0].datum_type != input_facts[1].datum_type || is_input_broadcast(
        table,
        input_facts,
    ) {
        Ok(MetalGemmImplKind::Ggml)
    } else {
        Ok(MetalGemmImplKind::Mlx)
    }
}

/// The dimensions are all known.
pub open spec fn all_known(dims: Seq<TDim>) -> bool {
    forall|i: int| 0 <= i < dims.len() ==> (#[trigger] dims[i]) is Val
}

/// With a kernel asked for, that is the one; with none, the MFA kernel never is: it is GGML if
/// an input is packed in `Q4_0` blocks, if the element types differ, or if the second input is
/// broadcast, and else MLX.
pub proof fn law_kernel_by_default(table: DimTableView, a: TypedFactView, b: TypedFactView)
    ensures
        ({
            let packed = |f: TypedFactView|
                f.device is None && (f.exotic matches ExoticFactView::BlockQuant { format, .. }
                    && format == BlockQuantFormat::Q4_0);
            let kind = resolved_gemm(None, table, a, b);
            &&& kind != MetalGemmImplKind::Mfa
            &&& kind == MetalGemmImplKind::Ggml <==> packed(a) || packed(b) || a.datum_type
                != b.datum_type || input_broadcast(table, a, b)
        }),
        forall|asked: MetalGemmImplKind| #[trigger] resolved_gemm(Some(asked), table, a, b) == asked,
{
}

/// For inputs of one element type that are not packed, the kernel depends on the shapes alone:
/// in any other element type, wherever they reside, the same one takes the product.
pub proof fn law_kernel_depends_on_shapes_alone(
    table: DimTableView,
    a: TypedFactView,
    b: TypedFactView,
    x: TypedFactView,
    y: TypedFactView,
)
    requires
        a.datum_type == b.datum_type,
        x.datum_type == y.datum_type,
        a.exotic is Plain && b.exotic is Plain && x.exotic is Plain && y.exotic is Plain,
        a.shape == x.shape,
        b.shape == y.shape,
    ensures
        resolved_gemm(None, table, a, b) == resolved_gemm(None, table, x, y),
        input_broadcast(table, a, b) == input_broadcast(table, x, y),
{
}

/// The second input is broadcast over the first exactly if the size of the batch of the first,
/// leaving out the bare symbols that the second does not have, is a multiple of that of the
/// second, and the sizes differ or something was left out. The batch of an input is made of all
/// axes but the last two, and for a second input in `Q4_0` blocks of all of them.
pub proof fn law_broadcast_by_batches(table: DimTableView, a: TypedFactView, b: TypedFactView)
    ensures
        ({
            let packed = b.device is None && (b.exotic matches ExoticFactView::BlockQuant {
                format,
                ..
            } && format == BlockQuantFormat::Q4_0);
            let ours = a.shape.take(a.shape.len() - 2);
            let theirs = if packed {
                b.shape
            } else {
                b.shape.take(b.shape.len() - 2)
            };
            let kept = ours.filter(|d: TDim| d is Sym ==> theirs.contains(d));
            let (x, y) = (product_divisor(table, kept), product_divisor(table, theirs));
            input_broadcast(table, a, b) == (x % y == 0 && (x != y || kept != ours))
        }),
{
    let ours = a_batch(a);
    let theirs = b_batch(b);
    let p = |d: TDim| d is Sym ==> theirs.contains(d);
    let q = |d: TDim| !(d is Sym) || theirs.contains(d);
    assert(p =~= q);
}

/// For batches of known sizes, the second input is broadcast exactly if the number of matrices of
/// the first is another multiple of that of the second than one.
pub proof fn law_known_batches_broadcast(
    table: DimTableView,
    a: TypedFactView,
    b: TypedFactView,
)
    requires
        a.shape.len() >= 2,
        b.shape.len() >= 2,
        b.exotic is Plain,
        all_known(a.shape.take(a.shape.len() - 2)),
        all_known(b.shape.take(b.shape.len() - 2)),
    ensures
        ({
            let x = magnitude_product(a.shape.take(a.shape.len() - 2));
            let y = magnitude_product(b.shape.take(b.shape.len() - 2));
            input_broadcast(table, a, b) == (x % y == 0 && x != y)
        }),
{
    let ours = a_batch(a);
    let theirs = b_batch(b);
    lemma_known_count(ours, theirs);
    law_known_sizes_multiply(table, ours);
    law_known_sizes_multiply(table, theirs);
}

/// Known dimensions all count.
proof fn lemma_known_count(ours: Seq<TDim>, theirs: Seq<TDim>)
    requires
        all_known(ours),
    ensures
        counted(ours, theirs) == ours,
    decreases ours.len(),
{
    reveal(Seq::filter);
    if ours.len() > 0 {
        let head = ours.drop_last();
        assert forall|i: int| 0 <= i < head.len() implies (#[trigger] head[i]) is Val by {
            assert(head[i] == ours[i]);
        }
        lemma_known_count(head, theirs);
        assert(ours[ours.len() - 1] is Val);
        assert(head.push(ours.last()) =~= ours);
    } else {
        assert(counted(ours, theirs) =~= ours);
    }
}

/// A bare symbol of the first input that the second does not have is a batch of its own: with
/// one in front, the second input is broadcast as soon as the size of the rest is a multiple of
/// its own.
pub proof fn law_own_symbol_broadcasts(
    table: DimTableView,
    a: TypedFactView,
    b: TypedFactView,
    s: u32,
)
    requires
        a.shape.len() >= 2,
        b.shape.len() >= 2,
        b.exotic is Plain,
        !b.shape.take(b.shape.len() - 2).contains(TDim::Sym(s)),
        all_known(a.shape.take(a.shape.len() - 2)),
        all_known(b.shape.take(b.shape.len() - 2)),
    ensures
        ({
            let x = magnitude_product(a.shape.take(a.shape.len() - 2));
            let y = magnitude_product(b.shape.take(b.shape.len() - 2));
            let wider = TypedFactView { shape: seq![TDim::Sym(s)] + a.shape, ..a };
            input_broadcast(table, wider, b) == (x % y == 0)
        }),
{
    let wider = TypedFactView { shape: seq![TDim::Sym(s)] + a.shape, ..a };
    let ours = a_batch(a);
    let theirs = b_batch(b);
    let all = a_batch(wider);
    assert(all =~= seq![TDim::Sym(s)] + ours);
    lemma_symbol_left_out(ours, theirs, s);
    lemma_known_count(ours, theirs);
    law_known_sizes_multiply(table, ours);
    law_known_sizes_multiply(table, theirs);
    assert(counted(all, theirs).len() != all.len());
}

/// A symbol in front that the second input does not have is left out.
proof fn lemma_symbol_left_out(ours: Seq<TDim>, theirs: Seq<TDim>, s: u32)
    requires
        !theirs.contains(TDim::Sym(s)),
    ensures
        counted(seq![TDim::Sym(s)] + ours, theirs) == counted(ours, theirs),
    decreases ours.len(),
{
    reveal(Seq::filter);
    let all = seq![TDim::Sym(s)] + ours;
    if ours.len() > 0 {
        lemma_symbol_left_out(ours.drop_last(), theirs, s);
        assert(all.drop_last() =~= seq![TDim::Sym(s)] + ours.drop_last());
    } else {
        assert(all.drop_last() =~= Seq::empty());
        assert(counted(ours, theirs) =~= Seq::empty());
        assert(counted(all, theirs) =~= Seq::empty());
    }
}

/// The sizes of the batches can be told if both inputs have two axes besides (but for a second
/// input in `Q4_0` blocks), if what counts of each batch can be multiplied, and if the second
/// batch is not known to be empty.
pub proof fn law_batches_that_can_be_told(table: DimTableView, a: TypedFactView, b: TypedFactView)
    ensures
        ({
            let packed = b.device is None && (b.exotic matches ExoticFactView::BlockQuant {
                format,
                ..
            } && format == BlockQuantFormat::Q4_0);
            let ours = a.shape.take(a.shape.len() - 2);
            let theirs = if packed {
                b.shape
            } else {
                b.shape.take(b.shape.len() - 2)
            };
            let kept = ours.filter(|d: TDim| d is Sym ==> theirs.contains(d));
            batches_known(table, a, b) == (a.shape.len() >= 2 && (packed || b.shape.len() >= 2)
                && multipliable(table, kept) && multipliable(table, theirs) && product_divisor(
                table,
                theirs,
            ) != 0)
        }),
{
    let theirs = b_batch(b);
    let p = |d: TDim| d is Sym ==> theirs.contains(d);
    let q = |d: TDim| !(d is Sym) || theirs.contains(d);
    assert(p =~= q);
}

/// Every family of kernels has a name of its own.
pub proof fn law_kernels_have_names(kind: MetalGemmImplKind, other: MetalGemmImplKind)
    ensures
        kind != other ==> gemm_name(kind) != gemm_name(other),
        gemm_name(MetalGemmImplKind::Mlx) == "mlx"@,
        gemm_name(MetalGemmImplKind::Mfa) == "mfa"@,
        gemm_name(MetalGemmImplKind::Ggml) == "ggml"@,
        gemm_kinds().contains(kind),
        gemm_kinds().len() == 3,
{
    reveal_strlit("mlx");
    reveal_strlit("mfa");
    reveal_strlit("ggml");
    assert("mlx"@[1] != "mfa"@[1]);
    assert("mlx"@.len() == 3 && "mfa"@.len() == 3 && "ggml"@.len() == 4);
    assert(gemm_kinds()[0] == MetalGemmImplKind::Mlx);
    assert(gemm_kinds()[1] == MetalGemmImplKind::Mfa);
    assert(gemm_kinds()[2] == MetalGemmImplKind::Ggml);
}

} // verus!
