use tract_core::internal::{SymbolScope, TDim as RealDim};
use tract_metal::cast::{
    metal_cast_new, Argument, CastError, CastKernel, GpuCast, InconsistentFacts, MetalCast,
};
use tract_metal::datum::{DatumType, QParams};
use tract_metal::dim::{
    as_concrete, batch_size, is_multipliable, normalized, DimTable, Expression, Known, Monomial,
    TDim,
};
use tract_metal::fact::{
    BlockQuantFormat, DeviceTensorOrigin, ExoticFact, Residence, TypedFact,
};
use tract_metal::gemm::{
    batches_are_known, check_matmul_in_dts, is_broadcast, is_input_broadcast, resolve_gemm_impl,
    GemmSupport, MetalGemmImplKind,
};
use tract_metal::matmul::{
    convert_matmul_if_plannable, convert_matmul_to_metal, plan_matmul, MatmulError, MatmulPlan,
    StepOp, Wire,
};
use tract_metal::model::PrefixMatMul;

const F16: DatumType = DatumType::F16;
const F32: DatumType = DatumType::F32;

fn fact(datum_type: DatumType, shape: &[TDim]) -> TypedFact {
    TypedFact { datum_type, shape: shape.to_vec(), exotic: ExoticFact::Plain, device: None }
}

fn vals(shape: &[i64]) -> Vec<TDim> {
    shape.iter().map(|d| TDim::Val(*d)).collect()
}

fn dense(datum_type: DatumType, shape: &[i64]) -> TypedFact {
    fact(datum_type, &vals(shape))
}

fn q40(shape: &[i64]) -> TypedFact {
    let sizes = shape.iter().map(|d| *d as usize).collect();
    TypedFact {
        exotic: ExoticFact::BlockQuant { format: BlockQuantFormat::Q4_0, shape: sizes },
        ..dense(F32, shape)
    }
}

fn table() -> DimTable {
    DimTable { exprs: vec![], known: vec![] }
}

/// The table of expressions about whose symbols nothing is asserted.
fn sums(exprs: Vec<Vec<Monomial>>) -> DimTable {
    let both = |e: Vec<Monomial>| Expression { written: e.clone(), simplified: e };
    DimTable { exprs: exprs.into_iter().map(both).collect(), known: vec![] }
}

fn casts() -> CastKernel {
    CastKernel { supported: vec![F16, F32, DatumType::I32] }
}

fn op(transpose_a: bool, transpose_b: bool, operating_dt: Option<DatumType>) -> PrefixMatMul {
    PrefixMatMul {
        transpose_a,
        transpose_b,
        transpose_c: false,
        quantize_output: None,
        operating_dt,
    }
}

fn steps(plan: &MatmulPlan) -> Vec<(&str, StepOp, &[Wire])> {
    plan.steps.iter().map(|s| (s.name.as_str(), s.op, s.inputs.as_slice())).collect()
}

fn cast(to: DatumType) -> StepOp {
    StepOp::Cast(GpuCast { to })
}

fn gemm(kind: MetalGemmImplKind, transpose_a: bool, transpose_b: bool) -> StepOp {
    StepOp::Gemm { kind, transpose_a, transpose_b }
}

const MLX: MetalGemmImplKind = MetalGemmImplKind::Mlx;
const MFA: MetalGemmImplKind = MetalGemmImplKind::Mfa;
const GGML: MetalGemmImplKind = MetalGemmImplKind::Ggml;

#[test]
fn kernel_names() {
    assert_eq!(MetalGemmImplKind::variants(), [MLX, MFA, GGML]);
    assert_eq!(MetalGemmImplKind::variants_str(), ["mlx", "mfa", "ggml"]);
    assert_eq!(GGML.to_str(), "ggml");
}

#[test]
fn a_plain_product_is_one_node() {
    let facts = vec![dense(F32, &[2, 4, 8]), dense(F32, &[2, 8, 16])];
    let plan =
        plan_matmul("mm", &op(true, false, None), &facts, None, &table(), &casts(), true, true)
            .unwrap();
    assert!(!plan.swapped);
    assert_eq!(
        steps(&plan),
        [("mm", gemm(MLX, true, false), &[Wire::Input(0), Wire::Input(1)][..])]
    );
}

#[test]
fn narrow_inputs_are_cast_up() {
    let facts = vec![dense(F16, &[4, 8]), dense(F16, &[8, 16])];
    let wide = op(false, false, Some(F32));
    let plan =
        plan_matmul("mm", &wide, &facts, Some(MFA), &table(), &casts(), false, false).unwrap();
    assert_eq!(
        steps(&plan),
        [
            ("mm.cast_acc_0", cast(F32), &[Wire::Input(0)][..]),
            ("mm.cast_acc_1", cast(F32), &[Wire::Input(1)][..]),
            ("mm", gemm(MFA, false, false), &[Wire::Step(0), Wire::Step(1)][..]),
        ]
    );
    // One that is wide enough stays.
    let facts = vec![dense(F32, &[4, 8]), dense(F16, &[8, 16])];
    let plan =
        plan_matmul("mm", &wide, &facts, Some(MLX), &table(), &casts(), false, false).unwrap();
    assert_eq!(
        steps(&plan),
        [
            ("mm.cast_acc_1", cast(F32), &[Wire::Input(1)][..]),
            ("mm", gemm(MLX, false, false), &[Wire::Input(0), Wire::Step(0)][..]),
        ]
    );
    // There has to be a cast.
    let e = plan_matmul(
        "mm",
        &op(false, false, Some(DatumType::F64)),
        &facts,
        Some(MLX),
        &table(),
        &casts(),
        true,
        true,
    );
    assert_eq!(e.unwrap_err(), MatmulError::NoMetalCast(DatumType::F64));
}

#[test]
fn mixed_inputs_of_mlx_are_cast_to_single_precision() {
    let facts = vec![dense(F32, &[4, 8]), dense(F16, &[8, 16])];
    let plan =
        plan_matmul("mm", &op(false, true, None), &facts, Some(MLX), &table(), &casts(), true, true)
            .unwrap();
    assert_eq!(
        steps(&plan),
        [
            ("mm.cast_input", cast(F32), &[Wire::Input(1)][..]),
            ("mm", gemm(MLX, false, true), &[Wire::Input(0), Wire::Step(0)][..]),
        ]
    );
    let facts = vec![dense(F32, &[4, 8]), dense(DatumType::I32, &[8, 16])];
    let e =
        plan_matmul("mm", &op(false, true, None), &facts, Some(MFA), &table(), &casts(), true, true);
    assert_eq!(e.unwrap_err(), MatmulError::NeitherIsHalf);
}

#[test]
fn ggml_has_its_inputs_turned() {
    let facts = vec![dense(F16, &[3, 8, 4]), dense(F32, &[3, 8, 16])];
    let plan =
        plan_matmul("mm", &op(true, false, None), &facts, None, &table(), &casts(), true, false)
            .unwrap();
    assert!(!plan.swapped);
    let exchange = StepOp::MoveAxis { from: 1, to: 2 };
    assert_eq!(
        steps(&plan),
        [
            ("mm.perm_a", exchange, &[Wire::Input(0)][..]),
            ("mm.perm_b", exchange, &[Wire::Input(1)][..]),
            ("mm", gemm(GGML, false, true), &[Wire::Step(0), Wire::Step(1)][..]),
        ]
    );
}

#[test]
fn ggml_takes_inputs_the_other_way_round() {
    let facts = vec![q40(&[16, 32]), dense(F32, &[32, 4])];
    let convert = |op: &PrefixMatMul| {
        convert_matmul_to_metal("mm", op, &facts, None, &table(), &casts(), |_a, b| {
            b.as_quant_fact(BlockQuantFormat::Q4_0)
        })
    };
    let mut plan = convert(&op(false, false, None)).unwrap();
    assert!(plan.swapped);
    plan.permute_output(2);
    plan.cast_output(F32, F16, &casts()).unwrap();
    let exchange = StepOp::MoveAxis { from: 0, to: 1 };
    assert_eq!(
        steps(&plan),
        [
            ("mm.perm_b", exchange, &[Wire::Input(1)][..]),
            ("mm", gemm(GGML, false, true), &[Wire::Step(0), Wire::Input(0)][..]),
            ("mm.perm_out", exchange, &[Wire::Step(1)][..]),
            ("mm.out_cast", cast(F16), &[Wire::Step(2)][..]),
        ]
    );
    assert_eq!(convert(&op(true, true, None)).unwrap_err(), MatmulError::TransposedQ40);
}

#[test]
fn packed_weights_are_not_turned() {
    let facts = vec![dense(F32, &[4, 32]), q40(&[16, 32])];
    let e =
        plan_matmul("mm", &op(false, false, None), &facts, None, &table(), &casts(), true, true);
    assert_eq!(e.unwrap_err(), MatmulError::TransposedQ40);
    let plan =
        plan_matmul("mm", &op(false, true, None), &facts, None, &table(), &casts(), true, true)
            .unwrap();
    assert_eq!(plan.steps.len(), 1);
}

#[test]
fn outputs_in_the_type_expected_stay() {
    let facts = vec![dense(F32, &[4, 8]), dense(F32, &[8, 16])];
    let mut plan =
        plan_matmul("mm", &op(false, false, None), &facts, Some(MLX), &table(), &casts(), true, true)
            .unwrap();
    plan.permute_output(2);
    plan.cast_output(F32, F32, &casts()).unwrap();
    assert_eq!(plan.steps.len(), 1);
    assert_eq!(
        plan.cast_output(DatumType::I64, F32, &casts()).unwrap_err(),
        MatmulError::OutputCast
    );
    assert_eq!(plan.steps.len(), 1);
}

#[test]
fn products_that_cannot_be_looked_at() {
    let yes = |_: &TypedFact, _: &TypedFact| true;
    let flat = vec![dense(F32, &[8]), dense(F32, &[8])];
    let plain = op(false, false, None);
    assert!(
        convert_matmul_if_plannable("mm", &plain, &flat, None, &table(), &casts(), yes).is_none()
    );
    assert!(convert_matmul_if_plannable("mm", &plain, &flat, Some(MLX), &table(), &casts(), yes)
        .is_some());
    assert!(convert_matmul_if_plannable("mm", &plain, &flat, Some(GGML), &table(), &casts(), yes)
        .is_none());
    let none = CastKernel { supported: vec![] };
    let mixed = vec![dense(F32, &[4, 8]), dense(F16, &[8, 4])];
    assert!(convert_matmul_if_plannable("mm", &plain, &mixed, Some(MLX), &table(), &none, yes)
        .is_none());
}

#[test]
fn kernels_are_resolved() {
    let resolve = |a: TypedFact, b: TypedFact| {
        resolve_gemm_impl(None, &table(), &vec![a, b]).unwrap()
    };
    assert_eq!(resolve(dense(F32, &[4, 8]), dense(F32, &[8, 4])), MLX);
    assert_eq!(resolve(dense(F32, &[4, 8]), dense(F16, &[8, 4])), GGML);
    assert_eq!(resolve(dense(F32, &[4, 32]), q40(&[8, 32])), GGML);
    assert_eq!(resolve(q40(&[8, 32]), dense(F32, &[32, 8])), GGML);
    // Broadcast weights.
    assert_eq!(resolve(dense(F32, &[6, 4, 8]), dense(F32, &[1, 8, 4])), GGML);
    assert_eq!(resolve(dense(F32, &[6, 4, 8]), dense(F32, &[3, 8, 4])), GGML);
    assert_eq!(resolve(dense(F32, &[6, 4, 8]), dense(F32, &[6, 8, 4])), MLX);
    assert_eq!(resolve(dense(F32, &[6, 4, 8]), dense(F32, &[4, 8, 4])), MLX);
    assert_eq!(resolve(dense(F32, &[2, 3, 4, 8]), dense(F32, &[3, 2, 8, 4])), MLX);
    // What is asked for is taken.
    let facts = vec![dense(F32, &[4, 8]), dense(F16, &[8, 4])];
    assert_eq!(resolve_gemm_impl(Some(MFA), &table(), &facts), Ok(MFA));
}

#[test]
fn symbolic_batches() {
    let b = TDim::Sym(0);
    let s = TDim::Sym(1);
    let (m, n) = (TDim::Val(4), TDim::Val(8));
    let broadcast = |x: &[TDim], y: &[TDim]| {
        is_input_broadcast(&table(), &vec![fact(F32, x), fact(F32, y)])
    };
    // A symbol that the weights do not have is a batch of its own.
    assert!(broadcast(&[b, m, n], &[n, m]));
    assert!(broadcast(&[b, m, n], &[TDim::Val(1), n, m]));
    assert!(!broadcast(&[b, m, n], &[b, n, m]));
    assert!(broadcast(&[b, s, m, n], &[b, n, m]));
    // Expressions count: 2*b is a multiple of 2, and 3*s + 6 is one of 3.
    let exprs = sums(vec![
        vec![Monomial { coef: 2, atoms: vec![0] }],
        vec![Monomial { coef: 3, atoms: vec![1] }, Monomial { coef: 6, atoms: vec![] }],
    ]);
    assert!(exprs.is_well_formed());
    let with = |x: &[TDim], y: &[TDim]| is_input_broadcast(&exprs, &vec![fact(F32, x), fact(F32, y)]);
    assert!(with(&[TDim::Expr(0), m, n], &[TDim::Val(1), n, m]));
    assert!(!with(&[TDim::Expr(0), m, n], &[TDim::Val(3), n, m]));
    assert!(with(&[TDim::Expr(1), TDim::Val(2), m, n], &[TDim::Val(3), n, m]));
    assert!(!with(&[TDim::Expr(1), m, n], &[TDim::Val(3), n, m]));
    assert!(!with(&[TDim::Expr(0), TDim::Expr(1), m, n], &[TDim::Val(6), n, m]));
    assert!(with(&[TDim::Expr(0), TDim::Expr(1), m, n], &[TDim::Val(2), n, m]));
}

#[test]
fn divisors_of_atoms_count() {
    let scope = SymbolScope::default();
    let s = RealDim::from(scope.sym("S"));
    let t = RealDim::from(scope.sym("T"));
    let (m, n) = (TDim::Val(4), TDim::Val(8));
    let two = [TDim::Val(2), n, m];

    // The minimum of 4 * s and 8 is known to be a multiple of 4.
    let min = RealDim::Min(vec![s.clone() * 4, RealDim::Val(8)]);
    assert_eq!(min.gcd(), 4);
    let exprs = sums(vec![vec![Monomial { coef: 4, atoms: vec![7] }]]);
    let facts = vec![fact(F32, &[TDim::Expr(0), m, n]), fact(F32, &two)];
    assert!(is_input_broadcast(&exprs, &facts));
    assert_eq!(resolve_gemm_impl(None, &exprs, &facts), Ok(GGML));

    // Products in a sum are read as they stand: multiplied out, all terms would be even.
    let plus = (s.clone() + 1) * (t.clone() + 1);
    let minus = (s + RealDim::Val(-1)) * (t + RealDim::Val(-1));
    let sum = RealDim::Add(vec![plus, minus]);
    assert_eq!(sum.gcd(), 1);
    let exprs = sums(vec![vec![
        Monomial { coef: 1, atoms: vec![2, 3] },
        Monomial { coef: 1, atoms: vec![4, 5] },
    ]]);
    let facts = vec![fact(F32, &[TDim::Expr(0), m, n]), fact(F32, &two)];
    assert!(!is_input_broadcast(&exprs, &facts));
    assert_eq!(resolve_gemm_impl(None, &exprs, &facts), Ok(MLX));
}

#[test]
fn asserted_equalities_are_put_in_where_dimensions_are_multiplied() {
    let scope = SymbolScope::default();
    let s = RealDim::from(scope.sym("S"));
    let twice = s.clone() * 2;
    scope.add_assertion("S == 4").unwrap();
    assert_eq!([twice.clone(), RealDim::Val(3)].iter().product::<RealDim>().gcd(), 24);
    assert_eq!([twice].iter().product::<RealDim>().gcd(), 2);
    assert_eq!([s.clone(), RealDim::Val(3)].iter().product::<RealDim>().gcd(), 12);
    assert_eq!([s].iter().product::<RealDim>().gcd(), 1);

    let table = DimTable {
        exprs: vec![Expression {
            written: terms_of(&[(2, &[0])]),
            simplified: terms_of(&[(8, &[])]),
        }],
        known: vec![Known { symbol: 0, simplified: terms_of(&[(4, &[])]) }],
    };
    assert!(table.is_well_formed());
    let (m, n) = (TDim::Val(4), TDim::Val(8));
    let (one, three, four) = (TDim::Val(1), TDim::Val(3), TDim::Val(4));
    let (twice, s) = (TDim::Expr(0), TDim::Sym(0));
    assert_eq!(batch_size(&table, &vec![twice, three]), 24);
    assert_eq!(batch_size(&table, &vec![one, twice, one]), 2);
    assert_eq!(batch_size(&table, &vec![s, three]), 12);
    assert_eq!(batch_size(&table, &vec![s]), 1);
    assert_eq!(batch_size(&table, &vec![]), 1);
    assert_eq!(batch_size(&table, &vec![s, TDim::Sym(1), TDim::Val(0)]), 0);
    let resolve = |a: &[TDim], b: &[TDim]| {
        resolve_gemm_impl(None, &table, &vec![fact(F32, a), fact(F32, b)])
    };
    assert_eq!(resolve(&[twice, three, m, n], &[four, n, m]), Ok(GGML));
    assert_eq!(resolve(&[twice, m, n], &[four, n, m]), Ok(MLX));
    assert_eq!(resolve(&[s, three, m, n], &[s, n, m]), Ok(GGML));
}

/// The sum that a real dimension is, with all that is not known in one atom.
fn encoded(d: &RealDim, atom: u32) -> Vec<Monomial> {
    match d {
        RealDim::Val(0) => vec![],
        RealDim::Val(v) => vec![Monomial { coef: *v, atoms: vec![] }],
        d => vec![Monomial { coef: d.gcd() as i64, atoms: vec![atom] }],
    }
}

#[test]
fn sizes_of_products_with_assertions() {
    let mut state: u64 = 11;
    let mut next = |n: u64| {
        state = state.wrapping_mul(6364136223846793005).wrapping_add(1442695040888963407);
        (state >> 33) % n
    };
    let facts = ["A == 4", "A == 1", "B == 2 * C", "B == 0", "C == 6", "C >= 8", "A == B"];
    for round in 0..400 {
        let scope = SymbolScope::default();
        let syms: Vec<RealDim> = ["A", "B", "C"].iter().map(|s| scope.sym(s).into()).collect();
        let mut real: Vec<RealDim> = vec![];
        for _ in 0..1 + next(4) {
            let s = syms[next(3) as usize].clone();
            let t = syms[next(3) as usize].clone();
            real.push(match next(7) {
                0 => s,
                1 => s * (1 + next(5)) as i64,
                2 => s * (1 + next(3)) as i64 + t * (1 + next(3)) as i64,
                3 => RealDim::Min(vec![s * 4, RealDim::Val(8)]),
                4 => s * &t,
                5 => s + next(4) as i64,
                _ => RealDim::Val(next(4) as i64),
            });
        }
        scope.add_assertion(facts[next(7) as usize]).unwrap();
        let size = real.iter().product::<RealDim>().gcd();
        let mut table = table();
        let mut dims = vec![];
        for (i, d) in real.iter().enumerate() {
            let simplified = encoded(&d.clone().reduce().reduce(), 10 + i as u32);
            if let RealDim::Val(v) = d {
                dims.push(TDim::Val(*v));
            } else if matches!(d, RealDim::Sym(_)) {
                table.known.push(Known { symbol: 100 + i as u32, simplified });
                dims.push(TDim::Sym(100 + i as u32));
            } else {
                dims.push(TDim::Expr(table.exprs.len() as u32));
                table.exprs.push(Expression { written: encoded(d, 10 + i as u32), simplified });
            }
        }
        assert!(is_multipliable(&table, &dims));
        assert_eq!(batch_size(&table, &dims), size, "{round}: {real:?} in {:?}", scope.all_assertions());
    }
}

#[test]
fn sizes_of_products_of_dimensions() {
    let scope = SymbolScope::default();
    let syms: Vec<RealDim> = ["A", "B", "C"].iter().map(|s| scope.sym(s).into()).collect();
    let mut state: u64 = 5;
    let mut next = |n: u64| {
        state = state.wrapping_mul(6364136223846793005).wrapping_add(1442695040888963407);
        (state >> 33) % n
    };
    for round in 0..400 {
        let mut dims: Vec<RealDim> = vec![];
        for _ in 0..1 + next(3) {
            let mut linear = || {
                let s = syms[next(3) as usize].clone();
                (s * (1 + next(6)) as i64 + next(7) as i64) * (1 + next(3)) as i64
            };
            let (x, y, z) = (linear(), linear(), linear());
            dims.push(match next(7) {
                0 => x * &y,
                1 => x * &y + z,
                2 => RealDim::Min(vec![x, y]).simplify(),
                3 => RealDim::Max(vec![x, y]).simplify() * &z,
                4 => x / 2 + y,
                5 => (x + y) * &z,
                _ => x,
            });
        }
        let real = dims.iter().product::<RealDim>().gcd();
        let exprs: Vec<Vec<Monomial>> = dims
            .iter()
            .enumerate()
            .map(|(i, d)| vec![Monomial { coef: d.gcd() as i64, atoms: vec![i as u32] }])
            .collect();
        let table = sums(exprs);
        let shape: Vec<TDim> =
            (0..dims.len() as u32).map(TDim::Expr).chain(vals(&[4, 8])).collect();
        for k in 1..40 {
            let facts = vec![fact(F32, &shape), dense(F32, &[k as i64, 8, 4])];
            let got = is_input_broadcast(&table, &facts);
            assert_eq!(got, is_broadcast(real, k, false), "{round}: {dims:?} by {k}");
        }
    }
}

#[test]
fn broadcasts_by_size() {
    assert!(is_broadcast(6, 3, false));
    assert!(!is_broadcast(6, 6, false));
    assert!(is_broadcast(6, 6, true));
    assert!(!is_broadcast(6, 4, true));
}

#[test]
fn batches_that_are_not_known() {
    let t = table();
    assert!(batches_are_known(&t, &dense(F32, &[2, 3]), &dense(F32, &[3, 2])));
    assert!(!batches_are_known(&t, &dense(F32, &[3]), &dense(F32, &[3, 2])));
    assert!(!batches_are_known(&t, &dense(F32, &[2, 3]), &dense(F32, &[3])));
    assert!(!batches_are_known(&t, &dense(F32, &[2, 3]), &dense(F32, &[0, 3, 2])));
    let huge = [i64::MAX, 2, 3, 2];
    assert!(!batches_are_known(&t, &dense(F32, &huge), &dense(F32, &[3, 2])));
    assert!(batches_are_known(&t, &dense(F32, &[i64::MAX, 3, 2]), &dense(F32, &[3, 2])));
    let unknown = fact(F32, &[TDim::Expr(0), TDim::Val(2), TDim::Val(3)]);
    assert!(!batches_are_known(&t, &unknown, &dense(F32, &[3, 2])));
}

fn terms_of(terms: &[(i64, &[u32])]) -> Vec<Monomial> {
    terms.iter().map(|(coef, atoms)| Monomial { coef: *coef, atoms: atoms.to_vec() }).collect()
}

#[test]
fn like_terms_are_added_up() {
    let normal = |terms: &[(i64, &[u32])]| {
        normalized(&terms_of(terms))
            .map(|sum| sum.into_iter().map(|m| (m.coef, m.atoms)).collect::<Vec<_>>())
    };
    let sum: &[(i64, &[u32])] = &[(2, &[3, 1]), (5, &[]), (4, &[1, 3]), (-5, &[]), (1, &[2])];
    assert_eq!(normal(sum), Some(vec![(6, vec![1, 3]), (1, vec![2])]));
    assert_eq!(normal(&[]), Some(vec![]));
    assert_eq!(normal(&[(i64::MAX, &[0]), (1, &[1])]).unwrap().len(), 2);
    assert_eq!(normal(&[(i64::MAX, &[0]), (1, &[0])]), None);
    assert_eq!(normal(&[(1, &[5, 4, 4, 0])]), Some(vec![(1, vec![0, 4, 4, 5])]));
    assert!(sums(vec![normalized(&terms_of(sum)).unwrap()]).is_well_formed());
}

#[test]
fn expressions_in_normal_form() {
    let table = |terms: &[(i64, &[u32])]| sums(vec![terms_of(terms)]);
    assert!(table(&[(1, &[0, 1]), (-2, &[0])]).is_well_formed());
    assert!(table(&[]).is_well_formed());
    assert!(!table(&[(0, &[0])]).is_well_formed());
    assert!(!table(&[(1, &[1, 0])]).is_well_formed());
    assert!(!table(&[(1, &[0]), (2, &[0])]).is_well_formed());
}

#[test]
fn support_of_any_kernel_will_do() {
    let none = GemmSupport { mlx: false, mfa: false, ggml: false, ggml_swapped: false };
    assert!(!check_matmul_in_dts(none));
    assert!(check_matmul_in_dts(GemmSupport { mlx: true, ..none }));
    assert!(check_matmul_in_dts(GemmSupport { mfa: true, ..none }));
    assert!(check_matmul_in_dts(GemmSupport { ggml: true, ..none }));
    assert!(check_matmul_in_dts(GemmSupport { ggml_swapped: true, ..none }));
}

#[test]
fn casts_that_there_are() {
    assert_eq!(metal_cast_new(&casts(), F16), Some(GpuCast { to: F16 }));
    assert_eq!(metal_cast_new(&casts(), DatumType::F64), None);
    assert!(MetalCast::is_supported_dt(&casts(), F32));
    assert_eq!(MetalCast::new(&casts(), F32), Some(MetalCast { to: F32 }));
    let q = DatumType::QI8(QParams::ZpScale { zero_point: 3, scale_bits: 0 });
    assert_eq!(MetalCast::new(&casts(), q), None);
    let op = MetalCast { to: F32 };
    assert_eq!(op.name(), "MetalCast");
    assert!(op.is_stateless());
}

#[test]
fn casts_are_dispatched_where_they_have_to_be() {
    let to_f32 = MetalCast { to: F32 };
    let dispatch = |t: u32, to: DatumType| if t < 10 { Ok((t + 100, to).0) } else { Err("full") };
    let on = |value: u32, dt: DatumType| Argument { value, on_device: Some(dt) };
    assert_eq!(to_f32.eval(vec![on(1, F32)], dispatch), Ok(vec![1]));
    assert_eq!(to_f32.eval(vec![on(1, F16)], dispatch), Ok(vec![101]));
    assert_eq!(to_f32.eval(vec![on(11, F16)], dispatch), Err(CastError::Dispatch("full")));
    let host = vec![Argument { value: 1, on_device: None }];
    assert_eq!(to_f32.eval(host, dispatch), Err(CastError::NotOnDevice));
    assert_eq!(to_f32.eval(vec![], dispatch), Err(CastError::Arity(0)));
    let two = vec![on(1, F32), on(2, F32)];
    assert_eq!(to_f32.eval(two, dispatch), Err(CastError::Arity(2)));
}

#[test]
fn facts_of_a_cast() {
    let op = MetalCast { to: F16 };
    let host = dense(F32, &[2, 3]);
    let device = host.to_device();
    let out = op.output_facts(&vec![host.duplicate()]).unwrap();
    assert!(out[0].same(&dense(F16, &[2, 3])));
    let out = op.output_facts(&vec![device.duplicate()]).unwrap();
    let expected = Residence { origin: DeviceTensorOrigin::FromDevice, state_owned: false };
    assert_eq!(out[0].device, Some(expected));
    assert_eq!(out[0].datum_type, F16);
    assert_eq!(out.len(), 1);
    assert_eq!(op.output_facts(&vec![host, device]).unwrap_err(), InconsistentFacts);
}

#[test]
fn known_shapes() {
    assert_eq!(as_concrete(&vals(&[2, 3])), Some(vec![2, 3]));
    assert_eq!(as_concrete(&vec![TDim::Val(2), TDim::Sym(0)]), None);
    assert_eq!(as_concrete(&vals(&[2, -3])), None);
}

type Matrix = Vec<Vec<i64>>;

fn turned(m: &Matrix) -> Matrix {
    (0..m[0].len()).map(|j| m.iter().map(|row| row[j]).collect()).collect()
}

fn turned_if(m: &Matrix, turn: bool) -> Matrix {
    if turn {
        turned(m)
    } else {
        m.clone()
    }
}

fn product(x: &Matrix, y: &Matrix) -> Matrix {
    x.iter()
        .map(|row| {
            (0..y[0].len()).map(|j| row.iter().zip(y).map(|(a, r)| a * r[j]).sum()).collect()
        })
        .collect()
}

fn run(plan: &MatmulPlan, a: &Matrix, b: &Matrix) -> Matrix {
    let mut outputs: Vec<Matrix> = vec![];
    for step in &plan.steps {
        let read: Vec<&Matrix> = step
            .inputs
            .iter()
            .map(|w| match w {
                Wire::Input(0) => a,
                Wire::Input(_) => b,
                Wire::Step(i) => &outputs[*i],
            })
            .collect();
        let out = match step.op {
            StepOp::Cast(_) => read[0].clone(),
            StepOp::MoveAxis { from, to } => {
                assert_eq!((from, to), (0, 1));
                turned(read[0])
            }
            StepOp::Gemm { transpose_a, transpose_b, .. } => {
                product(&turned_if(read[0], transpose_a), &turned_if(read[1], transpose_b))
            }
        };
        outputs.push(out);
    }
    outputs.pop().unwrap()
}

#[test]
fn every_plan_computes_the_product() {
    let a: Matrix = vec![vec![1, -2, 3], vec![4, 5, -6]];
    let b: Matrix = vec![vec![7, 8, 9, 1], vec![-1, 2, 0, 3], vec![5, -4, 6, 2]];
    let expected = product(&a, &b);
    assert_eq!(expected, [[24, -8, 27, 1], [-7, 66, 0, 7]]);
    for kind in MetalGemmImplKind::variants() {
        for bits in 0..16 {
            let on = |i: u32| bits >> i & 1 == 1;
            let (transpose_a, transpose_b, ggml, wide) = (on(0), on(1), on(2), on(3));
            let facts = vec![dense(F16, &[2, 3]), dense(F32, &[3, 4])];
            let op = op(transpose_a, transpose_b, if wide { Some(F32) } else { None });
            let mut plan =
                plan_matmul("mm", &op, &facts, Some(kind), &table(), &casts(), ggml, true).unwrap();
            assert_eq!(plan.swapped, kind == GGML && !ggml);
            plan.permute_output(2);
            plan.cast_output(F32, F16, &casts()).unwrap();
            let got = run(&plan, &turned_if(&a, transpose_a), &turned_if(&b, transpose_b));
            assert_eq!(got, expected);
            let mut names: Vec<&str> = plan.steps.iter().map(|s| s.name.as_str()).collect();
            assert!(names.contains(&"mm"));
            names.sort();
            names.dedup();
            assert_eq!(names.len(), plan.steps.len());
        }
    }
}

#[test]
fn moved_axes_are_the_last_two() {
    let facts = vec![dense(F32, &[5, 2, 3]), dense(F32, &[6, 5, 3, 4])];
    let op = op(true, false, None);
    let mut plan =
        plan_matmul("mm", &op, &facts, Some(GGML), &table(), &casts(), false, true).unwrap();
    assert!(plan.swapped);
    plan.permute_output(4);
    let moves: Vec<(&str, StepOp)> = plan
        .steps
        .iter()
        .filter(|s| matches!(s.op, StepOp::MoveAxis { .. }))
        .map(|s| (s.name.as_str(), s.op))
        .collect();
    assert_eq!(
        moves,
        [
            ("mm.perm_a", StepOp::MoveAxis { from: 1, to: 2 }),
            ("mm.perm_b", StepOp::MoveAxis { from: 2, to: 3 }),
            ("mm.perm_out", StepOp::MoveAxis { from: 2, to: 3 }),
        ]
    );
}

fn gcd(a: u64, b: u64) -> u64 {
    if b == 0 {
        a
    } else {
        gcd(b, a % b)
    }
}

#[test]
fn batch_sizes_of_products_of_expressions() {
    let mut state: u64 = 99;
    let mut next = |n: u64| {
        state = state.wrapping_mul(6364136223846793005).wrapping_add(1442695040888963407);
        (state >> 33) % n
    };
    for _ in 0..300 {
        let mut exprs: Vec<Vec<Monomial>> = vec![];
        let mut dims = vec![];
        let mut size = 1u64;
        for _ in 0..1 + next(4) {
            if next(4) == 0 {
                let v = next(7) as i64 - 3;
                dims.push(TDim::Val(v));
                size *= v.unsigned_abs();
                continue;
            }
            let mut terms: Vec<Monomial> = vec![];
            for _ in 0..1 + next(3) {
                let mut atoms: Vec<u32> = (0..next(3)).map(|_| next(3) as u32).collect();
                atoms.sort();
                let coef = if next(2) == 0 { 1 + next(6) as i64 } else { -1 - next(6) as i64 };
                if terms.iter().all(|t| t.atoms != atoms) {
                    terms.push(Monomial { coef, atoms });
                }
            }
            size *= terms.iter().fold(0, |g, t| gcd(g, t.coef.unsigned_abs()));
            dims.push(TDim::Expr(exprs.len() as u32));
            exprs.push(terms);
        }
        let table = sums(exprs);
        assert!(table.is_well_formed());
        let shape: Vec<TDim> = dims.iter().copied().chain(vals(&[4, 8])).collect();
        for k in 1..60 {
            let facts = vec![fact(F32, &shape), dense(F32, &[k as i64, 8, 4])];
            assert!(batches_are_known(&table, &facts[0], &facts[1]));
            let expected = is_broadcast(size, k, false);
            assert_eq!(is_input_broadcast(&table, &facts), expected, "{dims:?} {table:?} {k}");
        }
    }
}
