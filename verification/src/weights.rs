//! Block-quantized weight tensors and the transposition of expert matrices.

use crate::datum::DatumType;
use crate::dim::{abs, TDim};
use crate::fact::{BlockQuantFormat, ExoticFact, ExoticFactView, TypedFact, TypedFactView};
use std::sync::Arc;
use tract_core::internal::Blob;
use tract_core::tract_linalg::block_quant::{BlockQuant, BlockQuantStorage, Q4_0};
use vstd::prelude::*;

verus! {

/// Elements of one block, in every format.
pub open spec fn block_len() -> int {
    32
}

/// Bytes of one packed block.
pub open spec fn block_bytes(format: BlockQuantFormat) -> int {
    match format {
        BlockQuantFormat::Q4_0 => 18,
        BlockQuantFormat::Q8_1 => 36,
        BlockQuantFormat::Q2_0T => 10,
    }
}

/// The number of elements of a shape.
pub open spec fn volume(shape: Seq<usize>) -> int
    decreases shape.len(),
{
    if shape.len() == 0 {
        1
    } else {
        volume(shape.drop_last()) * shape.last()
    }
}

/// The number of elements of a shape, an empty axis counted as one element.
pub open spec fn extent(shape: Seq<usize>) -> int
    decreases shape.len(),
{
    if shape.len() == 0 {
        1
    } else {
        extent(shape.drop_last()) * (if shape.last() == 0 {
            1
        } else {
            shape.last() as int
        })
    }
}

/// Single precision elements of the shape can be held in memory, whichever axes are taken.
pub open spec fn addressable(shape: Seq<usize>) -> bool {
    4 * extent(shape) <= isize::MAX - 127
}

/// A block-quantized tensor: the blocks of its rows, one after the other.
#[derive(Debug)]
pub struct BlockQuantTensor {
    pub format: BlockQuantFormat,
    /// The type that the elements have when they are unpacked.
    pub datum_type: DatumType,
    pub shape: Vec<usize>,
    pub packed: Vec<u8>,
}

impl BlockQuantTensor {
    /// The blocks are those of the shape, and the tensor fits in memory unpacked.
    pub open spec fn wf(&self) -> bool {
        &&& self.packed@.len() == volume(self.shape@) / block_len() * block_bytes(self.format)
        &&& addressable(self.shape@)
    }

    /// Whether the blocks are those of the shape, and the tensor fits in memory unpacked.
    pub fn is_well_formed(&self) -> (r: bool)
        ensures
            r == self.wf(),
    {
        let (volume, extent) = match measure(&self.shape) {
            Some(m) => m,
            None => return false,
        };
        let bytes: usize = match self.format {
            BlockQuantFormat::Q4_0 => 18,
            BlockQuantFormat::Q8_1 => 36,
            BlockQuantFormat::Q2_0T => 10,
        };
        let max = isize::MAX as usize;
        if extent > (max - 127) / 4 {
            return false;
        }
        let blocks = volume / 32;
        match blocks.checked_mul(bytes) {
            Some(n) => n == self.packed.len(),
            None => {
                assert(self.packed.len() == self.packed@.len());
                false
            },
        }
    }

    /// What is known of the tensor on the host.
    pub open spec fn spec_fact(&self) -> TypedFactView {
        TypedFactView {
            datum_type: self.datum_type,
            shape: self.shape@.map_values(|d: usize| TDim::Val(d as i64)),
            exotic: self.spec_exotic_fact(),
            device: None,
        }
    }

    /// The packing of the tensor.
    pub open spec fn spec_exotic_fact(&self) -> ExoticFactView {
        ExoticFactView::BlockQuant { format: self.format, shape: self.shape@ }
    }

    /// The packing of the tensor.
    pub fn exotic_fact(&self) -> (r: ExoticFact)
        ensures
            r@ == self.spec_exotic_fact(),
    {
        let shape = self.shape.clone();
        assert(shape@ =~= self.shape@);
        ExoticFact::BlockQuant { format: self.format, shape }
    }

    /// What is known of the tensor on the host.
    pub fn fact(&self) -> (r: TypedFact)
        ensures
            r@ == self.spec_fact(),
    {
        let mut shape: Vec<TDim> = Vec::new();
        let mut i: usize = 0;
        while i < self.shape.len()
            invariant
                i <= self.shape@.len(),
                shape@ == self.shape@.take(i as int).map_values(|d: usize| TDim::Val(d as i64)),
            decreases self.shape@.len() - i,
        {
            shape.push(TDim::Val(self.shape[i] as i64));
            i += 1;
        }
        assert(self.shape@.take(i as int) =~= self.shape@);
        TypedFact {
            datum_type: self.datum_type,
            shape,
            exotic: self.exotic_fact(),
            device: None,
        }
    }
}

/// Why a block-quantized tensor cannot be transposed.
#[derive(Debug, Clone, Copy, PartialEq, Eq, Structural)]
pub enum TransposeError {
    /// The tensor is not a list of matrices.
    NotRankThree,
    /// An axis of the matrices is no multiple of the length of a block.
    UnevenBlocks,
}

/// The shape of a list of matrices once each is transposed.
pub open spec fn swapped(shape: Seq<usize>) -> Seq<usize> {
    seq![shape[0], shape[2], shape[1]]
}

/// Two to the power of `n`.
pub open spec fn power_of_two(n: int) -> int
    decreases n,
{
    if n <= 0 {
        1
    } else {
        2 * power_of_two(n - 1)
    }
}

/// The bytes, the lower one first, are those of a half precision number that is neither
/// infinite nor no number.
pub open spec fn finite_half(low: u8, high: u8) -> bool {
    (high % 128) / 4 != 31
}

/// The half precision number of the bytes, the lower one first, in units of the smallest one
/// above zero, of which there are `2^24` in one.
pub open spec fn half_units(low: u8, high: u8) -> int {
    let exponent = (high as int % 128) / 4;
    let fraction = (high as int % 4) * 256 + low;
    let magnitude = if exponent == 0 {
        fraction
    } else {
        (1024 + fraction) * power_of_two(exponent - 1)
    };
    if high >= 128 {
        -magnitude
    } else {
        magnitude
    }
}

/// The step of a `Q4_0` block, which its first two bytes hold, in units of the smallest half
/// precision number.
pub open spec fn q40_step(packed: Seq<u8>, block: int) -> int {
    half_units(packed[18 * block], packed[18 * block + 1])
}

/// The four bits of element `at` of a `Q4_0` block: the first half of the elements are in the
/// lower halves of the bytes behind the step, and the second half in the upper ones.
pub open spec fn q40_level(packed: Seq<u8>, block: int, at: int) -> int {
    let byte = packed[18 * block + 2 + at % 16] as int;
    if at < 16 {
        byte % 16
    } else {
        byte / 16
    }
}

/// Element `n` of the elements that `Q4_0` blocks are unpacked to, in units of the smallest half
/// precision number: as many steps as its four bits say, from eight below zero up.
pub open spec fn q40_unpacked(packed: Seq<u8>, n: int) -> int {
    q40_step(packed, n / 32) * (q40_level(packed, n / 32, n % 32) - 8)
}

/// The place of element `[e, i, j]` of a list of matrices of `rows` rows and `columns` columns.
pub open spec fn place_of(rows: int, columns: int, e: int, i: int, j: int) -> int {
    (e * rows + i) * columns + j
}

/// The step of the block is neither infinite nor no number.
pub open spec fn step_finite(packed: Seq<u8>, b: int) -> bool {
    finite_half(packed[18 * b], packed[18 * b + 1])
}

/// No step of the blocks is infinite or no number.
pub open spec fn steps_finite(packed: Seq<u8>) -> bool {
    forall|b: int| 0 <= b && 18 * b + 1 < packed.len() ==> #[trigger] step_finite(packed, b)
}

/// The number `y`, packed in a block with the step, stands for `x`: the two differ by no more
/// than the step, but for what rounding it to half precision adds, which is less than a hundred
/// and twenty-eighth of it and four of the smallest numbers.
pub open spec fn rounds_to(x: int, y: int, step: int) -> bool {
    128 * abs(x - y) <= 129 * abs(step) + 512
}

/// Element `[e, j, i]` of the result stands for element `[e, i, j]` of the input, up to the
/// rounding of one step of the block that it is packed in.
pub open spec fn element_transposed(
    shape: Seq<usize>,
    packed: Seq<u8>,
    result: Seq<u8>,
    e: int,
    i: int,
    j: int,
) -> bool {
    let to = place_of(shape[2] as int, shape[1] as int, e, j, i);
    rounds_to(
        q40_unpacked(packed, place_of(shape[1] as int, shape[2] as int, e, i, j)),
        q40_unpacked(result, to),
        q40_step(result, to / 32),
    )
}

/// Every element of a list of matrices is where it belongs once each is transposed.
pub open spec fn elements_transposed(
    shape: Seq<usize>,
    packed: Seq<u8>,
    result: Seq<u8>,
) -> bool {
    forall|e: int, i: int, j: int|
        0 <= e < shape[0] && 0 <= i < shape[1] && 0 <= j < shape[2]
            ==> #[trigger] element_transposed(shape, packed, result, e, i, j)
}

/// The blocks of a list of `shape[0]` matrices of `shape[1]` rows and `shape[2]` columns,
/// once each matrix is unpacked, transposed, and packed again.
pub uninterp spec fn transposed_blocks(shape: Seq<usize>, packed: Seq<u8>) -> Seq<u8>;

/// Unpacks, transposes and packs again each matrix of a list of matrices in `Q4_0` blocks.
///
/// Calls `tract_transformers::ops::moe_ffn::transpose_block_quant_experts`. The contract says
/// that the blocks of the result depend on the shape and the blocks of the input alone, that
/// they are as many bytes, and that, unless a step of the input is infinite or no number, each
/// element `[e, j, i]` of the result is element `[e, i, j]` of the input, up to the rounding of
/// one step of its new block. The step is an eighth of the largest element of the block, rounded
/// to half precision; an element of the sign opposite to that one may be off by a whole step,
/// since there are seven steps on its side and eight on the other.
#[verifier::external_body]
fn outside_transpose(shape: &Vec<usize>, rows: usize, packed: &Vec<u8>) -> (r: Vec<u8>)
    requires
        transposable(shape@),
        rows == shape@[0] * shape@[1],
        packed@.len() == volume(shape@) / block_len() * block_bytes(BlockQuantFormat::Q4_0),
        addressable(shape@),
    ensures
        r@ == transposed_blocks(shape@, packed@),
        r@.len() == packed@.len(),
        steps_finite(packed@) ==> steps_finite(r@) && elements_transposed(shape@, packed@, r@),
{
    let blob = Arc::new(Blob::from_bytes(packed).unwrap());
    let storage = BlockQuantStorage::new(Box::new(Q4_0), rows, shape[2], blob);
    let input = storage.unwrap().into_tensor_with_shape(tract_core::internal::DatumType::F32, shape);
    let output = tract_transformers::ops::moe_ffn::transpose_block_quant_experts(&input).unwrap();
    output.try_storage_as::<BlockQuantStorage>().unwrap().value().as_bytes().to_vec()
}

/// The number of elements of a `Q4_0` block. Calls `BlockQuant::block_len` of `Q4_0`, which
/// is a constant.
#[verifier::external_body]
pub(crate) fn q40_block_len() -> (r: usize)
    ensures
        r == block_len(),
{
    Q4_0.block_len()
}

/// No axis is longer than the extent.
pub proof fn lemma_extent_bounds(shape: Seq<usize>, i: int)
    requires
        0 <= i < shape.len(),
    ensures
        shape[i] <= extent(shape),
        1 <= extent(shape),
    decreases shape.len(),
{
    let head = shape.drop_last();
    let last = if shape.last() == 0 { 1 } else { shape.last() as int };
    let rest = extent(head);
    if head.len() > 0 {
        lemma_extent_bounds(head, if i < head.len() { i } else { 0 });
    }
    assert(rest <= rest * last && last <= rest * last) by (nonlinear_arith)
        requires
            rest >= 1,
            last >= 1,
    ;
}

/// The extent of the first axes is no larger than that of all of them.
proof fn lemma_extent_grows(shape: Seq<usize>, i: int)
    requires
        0 <= i <= shape.len(),
    ensures
        1 <= extent(shape.take(i)) <= extent(shape),
    decreases shape.len(),
{
    if i < shape.len() {
        let head = shape.drop_last();
        lemma_extent_grows(head, i);
        assert(head.take(i) =~= shape.take(i));
        let last = if shape.last() == 0 { 1 } else { shape.last() as int };
        let rest = extent(head);
        assert(rest <= rest * last) by (nonlinear_arith)
            requires
                rest >= 1,
                last >= 1,
        ;
    } else {
        assert(shape.take(i) =~= shape);
        if shape.len() > 0 {
            lemma_extent_bounds(shape, 0);
        }
    }
}

/// A list of matrices has no more rows than its extent.
proof fn lemma_rows_fit(shape: Seq<usize>)
    requires
        shape.len() == 3,
    ensures
        0 <= shape[0] * shape[1] <= extent(shape),
{
    let head = shape.take(2);
    reveal_with_fuel(extent, 3);
    assert(head.drop_last().drop_last() =~= Seq::<usize>::empty());
    lemma_extent_grows(shape, 2);
    let (a, b) = (shape[0] as int, shape[1] as int);
    let x = if a == 0 { 1 } else { a };
    let y = if b == 0 { 1 } else { b };
    assert(extent(head) == 1 * x * y);
    assert(0 <= a * b <= 1 * x * y) by (nonlinear_arith)
        requires
            0 <= a <= x,
            0 <= b <= y,
    ;
}

/// The volume and the extent of a shape, unless the extent is no machine size.
fn measure(shape: &Vec<usize>) -> (r: Option<(usize, usize)>)
    ensures
        match r {
            Some(m) => m.0 == volume(shape@) && m.1 == extent(shape@),
            None => extent(shape@) > usize::MAX,
        },
{
    let mut v: usize = 1;
    let mut e: usize = 1;
    let mut i: usize = 0;
    while i < shape.len()
        invariant
            i <= shape@.len(),
            v == volume(shape@.take(i as int)),
            e == extent(shape@.take(i as int)),
            v <= e,
        decreases shape@.len() - i,
    {
        let d = shape[i];
        let ghost head = shape@.take(i as int);
        let ghost next = shape@.take(i + 1);
        assert(next.drop_last() =~= head && next.last() == d);
        proof {
            lemma_extent_grows(shape@, i + 1);
        }
        let f: usize = if d == 0 { 1 } else { d };
        match e.checked_mul(f) {
            Some(e2) => {
                assert(v * d <= e * f && 0 <= v * d) by (nonlinear_arith)
                    requires
                        v <= e,
                        0 <= v,
                        0 <= d <= f,
                ;
                v = v * d;
                e = e2;
            },
            None => return None,
        }
        i += 1;
    }
    assert(shape@.take(i as int) =~= shape@);
    Some((v, e))
}

/// Transposing the matrices keeps the number of elements and the bound on it.
pub proof fn lemma_swapped_volume(shape: Seq<usize>)
    requires
        shape.len() == 3,
    ensures
        volume(swapped(shape)) == volume(shape),
        extent(swapped(shape)) == extent(shape),
{
    let t = swapped(shape);
    let (a, b, c) = (shape[0] as int, shape[1] as int, shape[2] as int);
    reveal_with_fuel(volume, 4);
    reveal_with_fuel(extent, 4);
    assert(shape.drop_last().drop_last().drop_last() =~= Seq::<usize>::empty());
    assert(t.drop_last().drop_last().drop_last() =~= Seq::<usize>::empty());
    assert(volume(shape) == 1 * a * b * c);
    assert(volume(t) == 1 * a * c * b);
    let x = if a == 0 { 1 } else { a };
    let y = if b == 0 { 1 } else { b };
    let z = if c == 0 { 1 } else { c };
    assert(extent(shape) == 1 * x * y * z);
    assert(extent(t) == 1 * x * z * y);
    assert(1 * a * b * c == 1 * a * c * b && 1 * x * y * z == 1 * x * z * y) by (nonlinear_arith);
}

/// The matrices of `after` are those of `before`, each transposed.
pub open spec fn is_transposed(before: BlockQuantTensor, after: BlockQuantTensor) -> bool {
    &&& after.wf()
    &&& after.format == before.format
    &&& after.datum_type == before.datum_type
    &&& after.shape@ == swapped(before.shape@)
    &&& after.packed@ == transposed_blocks(before.shape@, before.packed@)
    &&& steps_finite(before.packed@) ==> steps_finite(after.packed@) && elements_transposed(
        before.shape@,
        before.packed@,
        after.packed@,
    )
}

/// The tensor is a list of matrices that can be transposed: both their axes are made of
/// whole blocks.
pub open spec fn transposable(shape: Seq<usize>) -> bool {
    &&& shape.len() == 3
    &&& shape[1] as int % block_len() == 0
    &&& shape[2] as int % block_len() == 0
}

/// Transposes each matrix of a list of `Q4_0` matrices. The elements are unpacked and packed
/// again, so they are rounded anew.
pub fn transpose_block_quant_experts(input: &BlockQuantTensor) -> (r: Result<
    BlockQuantTensor,
    TransposeError,
>)
    requires
        input.wf(),
        input.format == BlockQuantFormat::Q4_0,
    ensures
        match r {
            Ok(t) => {
                &&& transposable(input.shape@)
                &&& is_transposed(*input, t)
                &&& t.shape@ == seq![input.shape@[0], input.shape@[2], input.shape@[1]]
                &&& t.format == input.format && t.datum_type == input.datum_type
                &&& t.packed@ == transposed_blocks(input.shape@, input.packed@)
                &&& steps_finite(input.packed@) ==> elements_transposed(
                    input.shape@,
                    input.packed@,
                    t.packed@,
                )
            },
            Err(TransposeError::NotRankThree) => input.shape@.len() != 3,
            Err(TransposeError::UnevenBlocks) => input.shape@.len() == 3 && !transposable(
                input.shape@,
            ),
        },
        r is Ok == (input.shape@.len() == 3 && input.shape@[1] as int % 32 == 0
            && input.shape@[2] as int % 32 == 0),
        r matches Err(e) ==> (e is NotRankThree) == (input.shape@.len() != 3),
{
    if input.shape.len() != 3 {
        return Err(TransposeError::NotRankThree);
    }
    let block = q40_block_len();
    if input.shape[1] % block != 0 || input.shape[2] % block != 0 {
        return Err(TransposeError::UnevenBlocks);
    }
    proof {
        lemma_rows_fit(input.shape@);
    }
    let rows = input.shape[0] * input.shape[1];
    let packed = outside_transpose(&input.shape, rows, &input.packed);
    let mut shape: Vec<usize> = Vec::new();
    shape.push(input.shape[0]);
    shape.push(input.shape[2]);
    shape.push(input.shape[1]);
    assert(shape@ =~= swapped(input.shape@));
    proof {
        lemma_swapped_volume(input.shape@);
    }
    Ok(BlockQuantTensor { format: input.format, datum_type: input.datum_type, shape, packed })
}

/// Element `[e, i, j]` of a list of matrices in `Q4_0` blocks is element `[e, j, i]` once each
/// matrix is transposed, whatever the shape, square ones among them: the two unpacked values
/// differ by no more than one step of the new block, but for the rounding of the step.
pub proof fn law_elements_are_transposed(
    before: BlockQuantTensor,
    after: BlockQuantTensor,
    e: int,
    i: int,
    j: int,
)
    requires
        is_transposed(before, after),
        steps_finite(before.packed@),
        0 <= e < before.shape@[0],
        0 <= i < before.shape@[1],
        0 <= j < before.shape@[2],
    ensures
        ({
            let (rows, columns) = (before.shape@[1] as int, before.shape@[2] as int);
            let from = (e * rows + i) * columns + j;
            let to = (e * columns + j) * rows + i;
            let x = q40_unpacked(before.packed@, from);
            let y = q40_unpacked(after.packed@, to);
            let step = q40_step(after.packed@, to / 32);
            &&& 128 * (x - y) <= 129 * abs(step) + 512
            &&& 128 * (y - x) <= 129 * abs(step) + 512
        }),
        after.shape@ == seq![before.shape@[0], before.shape@[2], before.shape@[1]],
        after.format == before.format,
        after.datum_type == before.datum_type,
{
    assert(element_transposed(before.shape@, before.packed@, after.packed@, e, i, j));
}

/// What the unpacking of a `Q4_0` element says: a step of zero gives zero, four bits that say
/// eight give zero, and one more of them gives one step more.
pub proof fn law_unpacking_counts_steps(a: Seq<u8>, m: int, b: Seq<u8>, n: int)
    requires
        q40_step(a, m / 32) == q40_step(b, n / 32),
        q40_level(b, n / 32, n % 32) == q40_level(a, m / 32, m % 32) + 1,
    ensures
        q40_unpacked(b, n) == q40_unpacked(a, m) + q40_step(a, m / 32),
        q40_level(a, m / 32, m % 32) == 8 ==> q40_unpacked(a, m) == 0,
{
    let (s, l) = (q40_step(a, m / 32), q40_level(a, m / 32, m % 32) - 8);
    assert(s * (l + 1) == s * l + s && s * 0 == 0) by (nonlinear_arith);
}

/// What is known of a block-quantized tensor: its element type and its sizes, its packing in its
/// format with the same sizes, and that it is on the host.
pub proof fn law_fact_of_a_tensor(t: BlockQuantTensor, i: int)
    requires
        0 <= i < t.shape@.len(),
    ensures
        t.spec_fact().datum_type == t.datum_type,
        t.spec_fact().shape.len() == t.shape@.len(),
        t.spec_fact().shape[i] == TDim::Val(t.shape@[i] as i64),
        t.spec_fact().device is None,
        t.spec_fact().exotic == (ExoticFactView::BlockQuant { format: t.format, shape: t.shape@ }),
        t.spec_exotic_fact() == t.spec_fact().exotic,
{
}

/// A list of matrices in `Q4_0` blocks is well formed if it has a block of 18 bytes for each 32
/// elements, and its elements in single precision fit in memory.
pub proof fn law_well_formed_matrices(t: BlockQuantTensor)
    requires
        t.format == BlockQuantFormat::Q4_0,
        t.shape@.len() == 3,
        t.shape@[0] > 0 && t.shape@[1] > 0 && t.shape@[2] > 0,
        4 * (t.shape@[0] * t.shape@[1] * t.shape@[2]) <= isize::MAX - 127,
    ensures
        t.wf() == (t.packed@.len() == t.shape@[0] * t.shape@[1] * t.shape@[2] / 32 * 18),
{
    let s = t.shape@;
    reveal_with_fuel(volume, 4);
    reveal_with_fuel(extent, 4);
    assert(s.drop_last().drop_last().drop_last() =~= Seq::<usize>::empty());
    assert(volume(s) == 1 * s[0] * s[1] * s[2]);
    assert(extent(s) == 1 * s[0] * s[1] * s[2]);
    assert(1 * s[0] == s[0]);
}

/// The blocks of the transposed matrices are what unpacking, transposing and packing again gives,
/// whatever the steps of the blocks are; there are as many of them, and the result is well
/// formed.
pub proof fn law_blocks_are_packed_again(before: BlockQuantTensor, after: BlockQuantTensor)
    requires
        is_transposed(before, after),
    ensures
        after.packed@ == transposed_blocks(before.shape@, before.packed@),
        after.wf(),
{
}

/// A tensor is well formed if it has the bytes of one block of its format for each 32 elements,
/// and its elements in single precision fit in memory, an empty axis counted as one element.
pub proof fn law_well_formed_tensors(t: BlockQuantTensor, s: Seq<usize>, d: usize)
    ensures
        ({
            let bytes = match t.format {
                BlockQuantFormat::Q4_0 => 18int,
                BlockQuantFormat::Q8_1 => 36int,
                BlockQuantFormat::Q2_0T => 10int,
            };
            t.wf() == (t.packed@.len() == volume(t.shape@) / 32 * bytes && 4 * extent(t.shape@)
                <= isize::MAX - 127)
        }),
        volume(Seq::empty()) == 1,
        volume(s.push(d)) == volume(s) * d,
        extent(Seq::empty()) == 1,
        d > 0 ==> extent(s.push(d)) == extent(s) * d,
        d == 0 ==> extent(s.push(d)) == extent(s),
{
    assert(s.push(d).drop_last() =~= s);
}

} // verus!
