//! Tensor dimensions: constants, symbols, and expressions over symbols.

use crate::list::{same_list, Distinct};
use tract_core::internal::SymbolScope;
use vstd::multiset::Multiset;
use vstd::prelude::*;

verus! {

/// A dimension. Two dimensions are the same dimension exactly if the two values are equal.
#[derive(Debug, Clone, Copy, PartialEq, Eq, Structural, Hash)]
pub enum TDim {
    /// A known dimension.
    Val(i64),
    /// A symbol, alone.
    Sym(u32),
    /// Any other expression, by its place in a [`DimTable`].
    Expr(u32),
}

impl Distinct for TDim {
    fn equals(&self, other: &Self) -> (r: bool) {
        *self == *other
    }
}

/// One term of an expression: an integer times a product of atoms. An atom is a symbol, or
/// any other factor (a sum, a quotient, a minimum) divided by the greatest number that is
/// known to divide it, numbered among the symbols. What such a factor is divided by is part of
/// the coefficient: the minimum of `4 * s` and `8` is the term of the coefficient 4 and one
/// atom.
#[derive(Debug, Clone)]
pub struct Monomial {
    pub coef: i64,
    pub atoms: Vec<u32>,
}

impl View for Monomial {
    type V = (i64, Seq<u32>);

    open spec fn view(&self) -> (i64, Seq<u32>) {
        (self.coef, self.atoms@)
    }
}

/// An expression that dimensions refer to, in two forms, each a sum of terms. A product in a
/// sum is not multiplied out: it is one term, with its factors as atoms.
#[derive(Debug, Clone)]
pub struct Expression {
    /// The expression as it is written.
    pub written: Vec<Monomial>,
    /// The expression once all that is asserted of its symbols has been put in: with `s == 4`
    /// asserted, `2 * s` is the constant 8.
    pub simplified: Vec<Monomial>,
}

/// A symbol that is asserted to equal something.
#[derive(Debug, Clone)]
pub struct Known {
    pub symbol: u32,
    pub simplified: Vec<Monomial>,
}

/// What is known of the dimensions of a graph: the expressions that they refer to, and the
/// symbols that equal something. A symbol that is not listed is known to equal itself alone.
#[derive(Debug, Clone)]
pub struct DimTable {
    pub exprs: Vec<Expression>,
    pub known: Vec<Known>,
}

/// A sum of terms, by value.
pub type Polynomial = Seq<(i64, Seq<u32>)>;

/// The terms of a sum, by value.
pub open spec fn polynomial(terms: Seq<Monomial>) -> Polynomial {
    terms.map_values(|m: Monomial| m@)
}

/// An [`Expression`] by value.
pub struct ExpressionView {
    pub written: Polynomial,
    pub simplified: Polynomial,
}

impl View for Expression {
    type V = ExpressionView;

    open spec fn view(&self) -> ExpressionView {
        ExpressionView {
            written: polynomial(self.written@),
            simplified: polynomial(self.simplified@),
        }
    }
}

impl View for Known {
    type V = (u32, Polynomial);

    open spec fn view(&self) -> (u32, Polynomial) {
        (self.symbol, polynomial(self.simplified@))
    }
}

/// A [`DimTable`] by value.
pub struct DimTableView {
    pub exprs: Seq<ExpressionView>,
    pub known: Seq<(u32, Polynomial)>,
}

impl View for DimTable {
    type V = DimTableView;

    open spec fn view(&self) -> DimTableView {
        DimTableView {
            exprs: self.exprs@.map_values(|e: Expression| e@),
            known: self.known@.map_values(|k: Known| k@),
        }
    }
}

/// The terms of a sum are in normal form: no coefficient is zero, the atoms of a term are in
/// ascending order, and no two terms have the same atoms. The sum of no terms is zero.
pub open spec fn normal(p: Polynomial) -> bool {
    &&& forall|i: int| 0 <= i < p.len() ==> (#[trigger] p[i]).0 != 0
    &&& forall|i: int| 0 <= i < p.len() ==> ascending((#[trigger] p[i]).1)
    &&& forall|i: int, j: int| 0 <= i < j < p.len() ==> (#[trigger] p[i]).1 != (#[trigger] p[j]).1
}

/// The numbers go up, or stay.
pub open spec fn ascending(atoms: Seq<u32>) -> bool {
    forall|j: int, k: int| 0 <= j <= k < atoms.len() ==> atoms[j] <= atoms[k]
}

/// The sum of the magnitudes of the coefficients.
pub open spec fn magnitude(p: Polynomial) -> int
    decreases p.len(),
{
    if p.len() == 0 {
        0
    } else {
        magnitude(p.drop_last()) + abs(p.last().0 as int)
    }
}

/// The magnitude of an integer.
pub open spec fn abs(v: int) -> int {
    if v < 0 {
        -v
    } else {
        v
    }
}

impl DimTable {
    /// Every sum is in normal form.
    pub open spec fn wf(&self) -> bool {
        &&& forall|i: int|
            0 <= i < self@.exprs.len() ==> normal((#[trigger] self@.exprs[i]).written) && normal(
                self@.exprs[i].simplified,
            )
        &&& forall|i: int| 0 <= i < self@.known.len() ==> normal((#[trigger] self@.known[i]).1)
    }
}

/// The constant as a sum.
pub open spec fn constant(v: i64) -> Polynomial {
    if v == 0 {
        Seq::empty()
    } else {
        seq![(v, Seq::empty())]
    }
}

/// The symbol as a sum.
pub open spec fn symbol(s: u32) -> Polynomial {
    seq![(1i64, seq![s])]
}

/// What the symbol is known to equal. The first that is listed counts.
pub open spec fn settled(known: Seq<(u32, Polynomial)>, s: u32) -> Polynomial
    decreases known.len(),
{
    if known.len() == 0 {
        symbol(s)
    } else if known[0].0 == s {
        known[0].1
    } else {
        settled(known.skip(1), s)
    }
}

/// The dimension as it is written.
pub open spec fn written(table: DimTableView, d: TDim) -> Polynomial {
    match d {
        TDim::Val(v) => constant(v),
        TDim::Sym(s) => symbol(s),
        TDim::Expr(e) => table.exprs[e as int].written,
    }
}

/// The dimension once all that is known of its symbols has been put in.
pub open spec fn simplified(table: DimTableView, d: TDim) -> Polynomial {
    match d {
        TDim::Val(v) => constant(v),
        TDim::Sym(s) => settled(table.known, s),
        TDim::Expr(e) => table.exprs[e as int].simplified,
    }
}

/// The sign of the product of the sums if all of them are one or minus one, and else zero.
pub open spec fn unit_sign(factors: Seq<Polynomial>) -> int
    decreases factors.len(),
{
    if factors.len() == 0 {
        1
    } else if factors.last() == constant(1) {
        unit_sign(factors.drop_last())
    } else if factors.last() == constant(-1i64) {
        -unit_sign(factors.drop_last())
    } else {
        0
    }
}

/// The factors of the product of the dimensions, which are multiplied one after the other.
/// What is known of symbols is put in where two dimensions are multiplied: multiplying by one
/// leaves the other as it is written.
pub open spec fn factors(table: DimTableView, dims: Seq<TDim>) -> Seq<Polynomial>
    decreases dims.len(),
{
    if dims.len() == 0 {
        Seq::empty()
    } else if dims.last() == TDim::Val(1) {
        factors(table, dims.drop_last())
    } else if unit_sign(factors(table, dims.drop_last())) == 1 {
        seq![written(table, dims.last())]
    } else {
        dims.map_values(|d: TDim| simplified(table, d))
    }
}

/// The dimension is a constant, a symbol, or an expression of the table.
pub open spec fn known(table: DimTableView, d: TDim) -> bool {
    d matches TDim::Expr(e) ==> e < table.exprs.len()
}

/// A bound on every coefficient of the sum, at least one.
pub open spec fn weight(p: Polynomial) -> int {
    if magnitude(p) < 1 {
        1
    } else {
        magnitude(p)
    }
}

/// The product of the weights of the sums: a bound on every coefficient that turns up while
/// they are multiplied.
pub open spec fn product_weight(factors: Seq<Polynomial>) -> int
    decreases factors.len(),
{
    if factors.len() == 0 {
        1
    } else {
        product_weight(factors.drop_last()) * weight(factors.last())
    }
}

/// The dimensions can be multiplied: they are known, and the coefficients of the product
/// fit a machine integer.
pub open spec fn multipliable(table: DimTableView, dims: Seq<TDim>) -> bool {
    &&& forall|i: int| 0 <= i < dims.len() ==> known(table, #[trigger] dims[i])
    &&& product_weight(factors(table, dims)) <= i64::MAX
}

/// The greatest common divisor of two numbers.
pub open spec fn gcd(a: nat, b: nat) -> nat
    decreases b,
{
    if b == 0 {
        a
    } else {
        gcd(b, a % b)
    }
}

/// The greatest common divisor of the coefficients of a sum.
pub open spec fn content(p: Polynomial) -> nat
    decreases p.len(),
{
    if p.len() == 0 {
        0
    } else {
        gcd(content(p.drop_last()), abs(p.last().0 as int) as nat)
    }
}

/// The greatest number that is known to divide the product of the sums. Of an atom nothing
/// more is known than its coefficient, which holds all that is known to divide it.
pub open spec fn divisor(factors: Seq<Polynomial>) -> nat
    decreases factors.len(),
{
    if factors.len() == 0 {
        1
    } else {
        divisor(factors.drop_last()) * content(factors.last())
    }
}

/// The greatest number that is known to divide the product of the dimensions: the size of a
/// batch, as far as it is known.
pub open spec fn product_divisor(table: DimTableView, dims: Seq<TDim>) -> nat {
    divisor(factors(table, dims))
}

/// The sums of a list by value.
pub open spec fn polynomials(sums: Seq<Vec<Monomial>>) -> Seq<Polynomial> {
    sums.map_values(|f: Vec<Monomial>| polynomial(f@))
}

/// The greatest number that is known to divide the product of the sums.
///
/// Calls the product of an iterator of `tract_core::internal::TDim` and `TDim::gcd`, in a
/// fresh scope of symbols: all that is known of them has been put in already. `gcd` takes the
/// magnitude of a constant, one for a symbol, the product over factors and the greatest common
/// divisor over terms. The contract says that the result is the product of the greatest common
/// divisors of the coefficients of each sum, whichever form the product is simplified to.
#[verifier::external_body]
fn product_gcd(factors: &Vec<Vec<Monomial>>) -> (r: u64)
    requires
        forall|i: int|
            0 <= i < factors@.len() ==> normal(#[trigger] polynomials(factors@)[i]),
        product_weight(polynomials(factors@)) <= i64::MAX,
    ensures
        r == divisor(polynomials(factors@)),
{
    let scope = SymbolScope::default();
    let atom = |a: &u32| tract_core::internal::TDim::from(scope.sym(&format!("x{a}")));
    let term = |m: &Monomial| m.atoms.iter().map(atom).product::<tract_core::internal::TDim>() * m.coef;
    let sum = |f: &Vec<Monomial>| f.iter().map(term).sum::<tract_core::internal::TDim>();
    factors.iter().map(sum).product::<tract_core::internal::TDim>().gcd()
}

impl Monomial {
    /// An equal term.
    fn duplicate(&self) -> (r: Self)
        ensures
            r@ == self@,
    {
        let atoms = self.atoms.clone();
        assert(atoms@ =~= self.atoms@);
        Monomial { coef: self.coef, atoms }
    }
}

/// An equal sum.
fn duplicate_terms(terms: &Vec<Monomial>) -> (r: Vec<Monomial>)
    ensures
        polynomial(r@) == polynomial(terms@),
{
    let mut out: Vec<Monomial> = Vec::new();
    let mut i: usize = 0;
    while i < terms.len()
        invariant
            i <= terms@.len(),
            out@.len() == i,
            forall|j: int| 0 <= j < i ==> (#[trigger] out@[j])@ == terms@[j]@,
        decreases terms@.len() - i,
    {
        out.push(terms[i].duplicate());
        i += 1;
    }
    assert(polynomial(out@) =~= polynomial(terms@));
    out
}

/// The constant as a sum.
fn constant_terms(v: i64) -> (r: Vec<Monomial>)
    ensures
        polynomial(r@) == constant(v),
{
    let mut r: Vec<Monomial> = Vec::new();
    if v != 0 {
        let atoms: Vec<u32> = Vec::new();
        assert(atoms@ =~= Seq::empty());
        r.push(Monomial { coef: v, atoms });
    }
    assert(polynomial(r@) =~= constant(v));
    r
}

/// The symbol as a sum.
fn symbol_terms(s: u32) -> (r: Vec<Monomial>)
    ensures
        polynomial(r@) == symbol(s),
{
    let atoms = vec![s];
    assert(atoms@ =~= seq![s]);
    let r = vec![Monomial { coef: 1, atoms }];
    assert(polynomial(r@) =~= symbol(s));
    r
}

/// The dimension as it is written.
fn written_terms(table: &DimTable, d: TDim) -> (r: Vec<Monomial>)
    requires
        known(table@, d),
    ensures
        polynomial(r@) == written(table@, d),
{
    match d {
        TDim::Val(v) => constant_terms(v),
        TDim::Sym(s) => symbol_terms(s),
        TDim::Expr(e) => {
            assert(table.exprs.len() == table@.exprs.len());
            assert(table@.exprs[e as int] == table.exprs@[e as int]@);
            duplicate_terms(&table.exprs[e as usize].written)
        },
    }
}

/// The dimension once all that is known of its symbols has been put in.
fn simplified_terms(table: &DimTable, d: TDim) -> (r: Vec<Monomial>)
    requires
        known(table@, d),
    ensures
        polynomial(r@) == simplified(table@, d),
{
    match d {
        TDim::Val(v) => constant_terms(v),
        TDim::Sym(s) => {
            let ghost all = table@.known;
            let mut i: usize = 0;
            assert(all.skip(0) =~= all);
            while i < table.known.len()
                invariant
                    i <= table.known@.len(),
                    d == TDim::Sym(s),
                    all == table@.known,
                    all.len() == table.known@.len(),
                    settled(all, s) == settled(all.skip(i as int), s),
                decreases table.known@.len() - i,
            {
                assert(all[i as int] == table.known@[i as int]@);
                assert(all.skip(i as int)[0] == all[i as int]);
                if table.known[i].symbol == s {
                    return duplicate_terms(&table.known[i].simplified);
                }
                assert(all.skip(i as int).skip(1) =~= all.skip(i + 1));
                i += 1;
            }
            symbol_terms(s)
        },
        TDim::Expr(e) => {
            assert(table.exprs.len() == table@.exprs.len());
            assert(table@.exprs[e as int] == table.exprs@[e as int]@);
            duplicate_terms(&table.exprs[e as usize].simplified)
        },
    }
}

/// The sign of the product of the sums if all of them are one or minus one, and else zero.
fn sign_of_units(factors: &Vec<Vec<Monomial>>) -> (r: i8)
    ensures
        r == unit_sign(polynomials(factors@)),
{
    let ghost ps = polynomials(factors@);
    let mut i: usize = 0;
    let mut sign: i8 = 1;
    assert(ps.take(0) =~= Seq::empty());
    while i < factors.len()
        invariant
            i <= factors@.len(),
            ps == polynomials(factors@),
            -1 <= sign <= 1,
            sign == unit_sign(ps.take(i as int)),
        decreases factors@.len() - i,
    {
        let f = &factors[i];
        let ghost p = ps.take(i + 1);
        assert(p.drop_last() =~= ps.take(i as int) && p.last() == polynomial(f@));
        let coef: i64 = if f.len() == 1 && f[0].atoms.len() == 0 {
            f[0].coef
        } else {
            0
        };
        assert(coef != 0 ==> p.last() == constant(coef)) by {
            if coef != 0 {
                assert(f@[0].atoms@ =~= Seq::<u32>::empty());
                assert(p.last() =~= constant(coef));
            }
        }
        assert(p.last() == constant(1) ==> coef == 1) by {
            if p.last() == constant(1) {
                assert(p.last().len() == 1 && p.last()[0] == f@[0]@);
            }
        }
        assert(p.last() == constant(-1i64) ==> coef == -1) by {
            if p.last() == constant(-1i64) {
                assert(p.last().len() == 1 && p.last()[0] == f@[0]@);
            }
        }
        assert(constant(1)[0].0 == 1 && constant(-1i64)[0].0 == -1);
        if coef == -1 {
            sign = -sign;
        } else if coef != 1 {
            sign = 0;
        }
        i += 1;
    }
    assert(ps.take(i as int) =~= ps);
    sign
}

/// All the dimensions once what is known of their symbols has been put in.
fn all_simplified(table: &DimTable, dims: &Vec<TDim>, n: usize) -> (r: Vec<Vec<Monomial>>)
    requires
        n <= dims@.len(),
        forall|i: int| 0 <= i < dims@.len() ==> known(table@, #[trigger] dims@[i]),
    ensures
        polynomials(r@) == dims@.take(n as int).map_values(|d: TDim| simplified(table@, d)),
{
    let mut out: Vec<Vec<Monomial>> = Vec::new();
    let mut i: usize = 0;
    while i < n
        invariant
            i <= n <= dims@.len(),
            forall|i: int| 0 <= i < dims@.len() ==> known(table@, #[trigger] dims@[i]),
            out@.len() == i,
            forall|j: int|
                0 <= j < i ==> polynomial((#[trigger] out@[j])@) == simplified(table@, dims@[j]),
        decreases n - i,
    {
        out.push(simplified_terms(table, dims[i]));
        i += 1;
    }
    assert(polynomials(out@) =~= dims@.take(n as int).map_values(
        |d: TDim| simplified(table@, d),
    ));
    out
}

/// The factors of the product of the dimensions.
fn factors_of(table: &DimTable, dims: &Vec<TDim>) -> (r: Vec<Vec<Monomial>>)
    requires
        forall|i: int| 0 <= i < dims@.len() ==> known(table@, #[trigger] dims@[i]),
    ensures
        polynomials(r@) == factors(table@, dims@),
{
    let mut out: Vec<Vec<Monomial>> = Vec::new();
    let mut i: usize = 0;
    assert(polynomials(out@) =~= factors(table@, dims@.take(0)));
    while i < dims.len()
        invariant
            i <= dims@.len(),
            forall|i: int| 0 <= i < dims@.len() ==> known(table@, #[trigger] dims@[i]),
            polynomials(out@) == factors(table@, dims@.take(i as int)),
        decreases dims@.len() - i,
    {
        let d = dims[i];
        assert(dims@.take(i + 1).drop_last() =~= dims@.take(i as int));
        if d != TDim::Val(1) {
            if sign_of_units(&out) == 1 {
                out = vec![written_terms(table, d)];
                assert(polynomials(out@) =~= seq![written(table@, d)]);
            } else {
                out = all_simplified(table, dims, i + 1);
            }
        }
        i += 1;
    }
    assert(dims@.take(i as int) =~= dims@);
    out
}

/// What the symbol is known to equal is in normal form.
proof fn lemma_settled_normal(known: Seq<(u32, Polynomial)>, s: u32)
    requires
        forall|i: int| 0 <= i < known.len() ==> normal((#[trigger] known[i]).1),
    ensures
        normal(settled(known, s)),
    decreases known.len(),
{
    if known.len() > 0 && known[0].0 != s {
        assert forall|i: int| 0 <= i < known.skip(1).len() implies normal(
            (#[trigger] known.skip(1)[i]).1,
        ) by {
            assert(known.skip(1)[i] == known[i + 1]);
        }
        lemma_settled_normal(known.skip(1), s);
    }
}

/// Both forms of a dimension are in normal form.
proof fn lemma_forms_normal(table: &DimTable, d: TDim)
    requires
        table.wf(),
        known(table@, d),
    ensures
        normal(written(table@, d)),
        normal(simplified(table@, d)),
{
    match d {
        TDim::Val(v) => {},
        TDim::Sym(s) => {
            lemma_settled_normal(table@.known, s);
        },
        TDim::Expr(e) => {
            assert(normal(table@.exprs[e as int].written));
        },
    }
}

/// The factors of a product are in normal form.
proof fn lemma_factors_normal(table: &DimTable, dims: Seq<TDim>)
    requires
        table.wf(),
        forall|i: int| 0 <= i < dims.len() ==> known(table@, #[trigger] dims[i]),
    ensures
        forall|i: int|
            0 <= i < factors(table@, dims).len() ==> normal(#[trigger] factors(table@, dims)[i]),
    decreases dims.len(),
{
    let fs = factors(table@, dims);
    if dims.len() > 0 {
        let head = dims.drop_last();
        assert forall|i: int| 0 <= i < head.len() implies known(table@, #[trigger] head[i]) by {
            assert(head[i] == dims[i]);
        }
        lemma_factors_normal(table, head);
        assert(known(table@, dims[dims.len() - 1]));
        assert forall|i: int| 0 <= i < fs.len() implies normal(#[trigger] fs[i]) by {
            if dims.last() == TDim::Val(1) {
                assert(fs[i] == factors(table@, head)[i]);
            } else if unit_sign(factors(table@, head)) == 1 {
                lemma_forms_normal(table, dims.last());
                assert(fs[i] == written(table@, dims.last()));
            } else {
                assert(known(table@, dims[i]));
                lemma_forms_normal(table, dims[i]);
                assert(fs[i] == simplified(table@, dims[i]));
            }
        }
    }
}

/// The greatest number that is known to divide the product of the dimensions: the size of a
/// batch, as far as it is known.
pub fn batch_size(table: &DimTable, dims: &Vec<TDim>) -> (r: u64)
    requires
        table.wf(),
        multipliable(table@, dims@),
    ensures
        r == product_divisor(table@, dims@),
{
    proof {
        lemma_factors_normal(table, dims@);
    }
    let factors = factors_of(table, dims);
    product_gcd(&factors)
}

impl TDim {
    /// The value of a known dimension.
    pub fn as_i64(&self) -> (r: Option<i64>)
        ensures
            r == (match *self {
                TDim::Val(v) => Some(v),
                _ => None,
            }),
    {
        match self {
            TDim::Val(v) => Some(*v),
            _ => None,
        }
    }
}

/// The dimensions of a shape that are all known and not negative, as machine sizes.
pub open spec fn concrete(shape: Seq<TDim>) -> Option<Seq<usize>> {
    if forall|i: int|
        0 <= i < shape.len() ==> ((#[trigger] shape[i]) matches TDim::Val(v) && 0 <= v
            <= usize::MAX) {
        Some(shape.map_values(|d: TDim| d->Val_0 as usize))
    } else {
        None
    }
}

/// The sizes of a shape whose dimensions are all known, if they are.
pub fn as_concrete(shape: &Vec<TDim>) -> (r: Option<Vec<usize>>)
    ensures
        r is Some == (concrete(shape@) is Some),
        r matches Some(s) ==> s@ == concrete(shape@)->0,
        r is Some == (forall|i: int|
            0 <= i < shape@.len() ==> ((#[trigger] shape@[i]) matches TDim::Val(v) && 0 <= v
                <= usize::MAX)),
        r matches Some(s) ==> s@.len() == shape@.len() && forall|i: int|
            0 <= i < s@.len() ==> #[trigger] shape@[i] == TDim::Val(s@[i] as i64),
{
    let mut out: Vec<usize> = Vec::new();
    let mut i: usize = 0;
    while i < shape.len()
        invariant
            i <= shape@.len(),
            out@.len() == i,
            forall|j: int|
                0 <= j < i ==> ((#[trigger] shape@[j]) matches TDim::Val(v) && 0 <= v <= usize::MAX
                    && out@[j] == v),
        decreases shape@.len() - i,
    {
        match shape[i] {
            TDim::Val(v) => {
                if v < 0 || v as u64 > usize::MAX as u64 {
                    assert(!(shape@[i as int] matches TDim::Val(w) && 0 <= w <= usize::MAX));
                    return None;
                }
                out.push(v as usize);
            },
            _ => {
                assert(!(shape@[i as int] matches TDim::Val(w) && 0 <= w <= usize::MAX));
                return None;
            },
        }
        i += 1;
    }
    assert(out@ =~= concrete(shape@)->0);
    Some(out)
}

/// Whether the atoms are in ascending order.
fn is_ascending(atoms: &Vec<u32>) -> (r: bool)
    ensures
        r == ascending(atoms@),
{
    let mut i: usize = 1;
    while i < atoms.len()
        invariant
            1 <= i,
            i <= atoms@.len() || atoms@.len() == 0,
            forall|j: int, k: int| 0 <= j <= k < i && k < atoms@.len() ==> atoms@[j] <= atoms@[k],
        decreases atoms@.len() - i,
    {
        if atoms[i - 1] > atoms[i] {
            assert(atoms@[i - 1] > atoms@[i as int]);
            return false;
        }
        i += 1;
    }
    true
}

/// Whether the terms of a sum are in normal form.
fn is_normal(terms: &Vec<Monomial>) -> (r: bool)
    ensures
        r == normal(polynomial(terms@)),
{
    let ghost p = polynomial(terms@);
    let mut i: usize = 0;
    while i < terms.len()
        invariant
            i <= terms@.len(),
            p == polynomial(terms@),
            forall|a: int| 0 <= a < i ==> (#[trigger] p[a]).0 != 0 && ascending(p[a].1),
            forall|a: int, b: int|
                0 <= a < b < i ==> (#[trigger] p[a]).1 != (#[trigger] p[b]).1,
        decreases terms@.len() - i,
    {
        assert(p[i as int] == terms@[i as int]@);
        if terms[i].coef == 0 || !is_ascending(&terms[i].atoms) {
            return false;
        }
        let mut j: usize = 0;
        while j < i
            invariant
                j <= i < terms@.len(),
                p == polynomial(terms@),
                forall|a: int| 0 <= a < j ==> (#[trigger] p[a]).1 != p[i as int].1,
            decreases i - j,
        {
            assert(p[j as int] == terms@[j as int]@ && p[i as int] == terms@[i as int]@);
            if same_list(&terms[j].atoms, &terms[i].atoms) {
                assert(p[j as int].1 == p[i as int].1);
                return false;
            }
            j += 1;
        }
        i += 1;
    }
    true
}

impl DimTable {
    /// Whether every sum is in normal form.
    pub fn is_well_formed(&self) -> (r: bool)
        ensures
            r == self.wf(),
    {
        let mut i: usize = 0;
        while i < self.exprs.len()
            invariant
                i <= self.exprs@.len(),
                forall|j: int|
                    0 <= j < i ==> normal((#[trigger] self@.exprs[j]).written) && normal(
                        self@.exprs[j].simplified,
                    ),
            decreases self.exprs@.len() - i,
        {
            assert(self@.exprs[i as int] == self.exprs@[i as int]@);
            if !is_normal(&self.exprs[i].written) || !is_normal(&self.exprs[i].simplified) {
                return false;
            }
            i += 1;
        }
        let mut i: usize = 0;
        while i < self.known.len()
            invariant
                i <= self.known@.len(),
                forall|j: int| 0 <= j < i ==> normal((#[trigger] self@.known[j]).1),
            decreases self.known@.len() - i,
        {
            assert(self@.known[i as int] == self.known@[i as int]@);
            if !is_normal(&self.known[i].simplified) {
                return false;
            }
            i += 1;
        }
        true
    }
}

/// The magnitude of an integer.
fn magnitude_of(v: i64) -> (r: u64)
    ensures
        r == abs(v as int),
{
    if v == i64::MIN {
        9223372036854775808u64
    } else if v < 0 {
        (-v) as u64
    } else {
        v as u64
    }
}

/// The magnitude of a part of a sum is no larger than that of the sum.
proof fn lemma_magnitude_grows(p: Polynomial, n: int)
    requires
        0 <= n <= p.len(),
    ensures
        0 <= magnitude(p.take(n)) <= magnitude(p),
    decreases p.len(),
{
    if n < p.len() {
        lemma_magnitude_grows(p.drop_last(), n);
        assert(p.drop_last().take(n) =~= p.take(n));
    } else {
        assert(p.take(n) =~= p);
        if p.len() > 0 {
            lemma_magnitude_grows(p.drop_last(), n - 1);
        }
    }
}

/// The weight of a sum, unless it is no machine integer.
fn weight_of(terms: &Vec<Monomial>) -> (r: Option<u64>)
    ensures
        match r {
            Some(w) => w == weight(polynomial(terms@)),
            None => weight(polynomial(terms@)) > u64::MAX,
        },
{
    let ghost p = polynomial(terms@);
    let mut total: u64 = 0;
    let mut i: usize = 0;
    while i < terms.len()
        invariant
            i <= terms@.len(),
            p == polynomial(terms@),
            total == magnitude(p.take(i as int)),
        decreases terms@.len() - i,
    {
        assert(p.take(i + 1).drop_last() =~= p.take(i as int));
        assert(p[i as int] == terms@[i as int]@);
        proof {
            lemma_magnitude_grows(p, i + 1);
        }
        match total.checked_add(magnitude_of(terms[i].coef)) {
            Some(t) => {
                total = t;
            },
            None => return None,
        }
        i += 1;
    }
    assert(p.take(i as int) =~= p);
    if total < 1 {
        Some(1)
    } else {
        Some(total)
    }
}

/// The weights of some of the sums multiply to no more than those of all of them.
proof fn lemma_weight_grows(factors: Seq<Polynomial>, n: int)
    requires
        0 <= n <= factors.len(),
    ensures
        1 <= product_weight(factors.take(n)) <= product_weight(factors),
    decreases factors.len(),
{
    if n < factors.len() {
        lemma_weight_grows(factors.drop_last(), n);
        assert(factors.drop_last().take(n) =~= factors.take(n));
        let (a, b) = (product_weight(factors.drop_last()), weight(factors.last()));
        assert(a <= a * b) by (nonlinear_arith)
            requires
                a >= 1,
                b >= 1,
        ;
    } else {
        assert(factors.take(n) =~= factors);
        if factors.len() > 0 {
            lemma_weight_grows(factors.drop_last(), n - 1);
            let (a, b) = (product_weight(factors.drop_last()), weight(factors.last()));
            assert(1 <= a * b) by (nonlinear_arith)
                requires
                    a >= 1,
                    b >= 1,
            ;
        }
    }
}

/// Whether the dimensions can be multiplied: they are known, and the coefficients of the
/// product fit a machine integer.
pub fn is_multipliable(table: &DimTable, dims: &Vec<TDim>) -> (r: bool)
    ensures
        r == multipliable(table@, dims@),
{
    assert(table.exprs.len() == table@.exprs.len());
    let mut i: usize = 0;
    while i < dims.len()
        invariant
            i <= dims@.len(),
            table.exprs.len() == table@.exprs.len(),
            forall|j: int| 0 <= j < i ==> known(table@, #[trigger] dims@[j]),
        decreases dims@.len() - i,
    {
        if let TDim::Expr(e) = dims[i] {
            if e as u64 >= table.exprs.len() as u64 {
                assert(!known(table@, dims@[i as int]));
                return false;
            }
        }
        i += 1;
    }
    let factors = factors_of(table, dims);
    let ghost ps = polynomials(factors@);
    let mut product: u64 = 1;
    let mut i: usize = 0;
    assert(ps.take(0) =~= Seq::empty());
    while i < factors.len()
        invariant
            i <= factors@.len(),
            ps == polynomials(factors@),
            ps == crate::dim::factors(table@, dims@),
            product == product_weight(ps.take(i as int)),
            product <= i64::MAX,
        decreases factors@.len() - i,
    {
        let ghost w = weight(ps[i as int]);
        proof {
            assert(ps.take(i + 1).drop_last() =~= ps.take(i as int));
            lemma_weight_grows(ps, i + 1);
            lemma_weight_grows(ps, i as int);
            assert(product * w >= w) by (nonlinear_arith)
                requires
                    product >= 1,
                    w >= 1,
            ;
        }
        let next = match weight_of(&factors[i]) {
            Some(w) => product.checked_mul(w),
            None => None,
        };
        match next {
            Some(p) if p <= i64::MAX as u64 => {
                product = p;
            },
            _ => return false,
        }
        i += 1;
    }
    assert(ps.take(i as int) =~= ps);
    true
}

/// The coefficient of a product of atoms in a sum: the sum of those of all terms with these
/// atoms, in any order.
pub open spec fn coefficient(p: Polynomial, atoms: Multiset<u32>) -> int
    decreases p.len(),
{
    if p.len() == 0 {
        0
    } else {
        coefficient(p.drop_last(), atoms) + if p.last().1.to_multiset() == atoms {
            p.last().0 as int
        } else {
            0
        }
    }
}

/// Like terms can be added up, one after the other, in machine integers.
pub open spec fn addable(p: Polynomial) -> bool {
    forall|i: int, atoms: Multiset<u32>|
        0 <= i <= p.len() ==> i64::MIN <= #[trigger] coefficient(p.take(i), atoms) <= i64::MAX
}

/// Puts the atoms in ascending order.
fn sort_atoms(atoms: &mut Vec<u32>)
    ensures
        ascending(final(atoms)@),
        final(atoms)@.to_multiset() == old(atoms)@.to_multiset(),
{
    let mut i: usize = 0;
    while i < atoms.len()
        invariant
            i <= atoms@.len(),
            ascending(atoms@.take(i as int)),
            atoms@.to_multiset() == old(atoms)@.to_multiset(),
        decreases atoms@.len() - i,
    {
        let mut j: usize = i;
        let ghost before = atoms@;
        assert forall|a: int, b: int| 0 <= a <= b < i implies atoms@[a] <= atoms@[b] by {
            assert(before.take(i as int)[a] == atoms@[a] && before.take(i as int)[b] == atoms@[b]);
        }
        while j > 0 && atoms[j - 1] > atoms[j]
            invariant
                j <= i < atoms@.len(),
                atoms@.len() == before.len(),
                atoms@.to_multiset() == old(atoms)@.to_multiset(),
                forall|a: int, b: int|
                    0 <= a <= b <= i && a != j && b != j ==> atoms@[a] <= atoms@[b],
                forall|b: int| j <= b <= i ==> atoms@[j as int] <= atoms@[b],
            decreases j,
        {
            let ghost last = atoms@;
            let x = atoms[j - 1];
            let y = atoms[j];
            atoms.set(j - 1, y);
            atoms.set(j, x);
            proof {
                lemma_swap_keeps(last, j as int);
                assert(atoms@ =~= last.update(j - 1, y).update(j as int, x));
            }
            j -= 1;
        }
        i += 1;
        assert forall|a: int, b: int| 0 <= a <= b < i implies atoms@.take(i as int)[a]
            <= atoms@.take(i as int)[b] by {}
    }
    assert(atoms@.take(i as int) =~= atoms@);
}

/// Exchanging neighbours keeps what a list holds.
proof fn lemma_swap_keeps(s: Seq<u32>, j: int)
    requires
        0 < j < s.len(),
    ensures
        s.update(j - 1, s[j]).update(j, s[j - 1]).to_multiset() == s.to_multiset(),
{
    broadcast use vstd::seq_lib::group_to_multiset_ensures;

    let t = s.update(j - 1, s[j]);
    assert(t.to_multiset() =~= s.to_multiset().insert(s[j]).remove(s[j - 1]));
    assert(t.update(j, s[j - 1]).to_multiset() =~= t.to_multiset().insert(s[j - 1]).remove(s[j]));
    assert(t.update(j, s[j - 1]).to_multiset() =~= s.to_multiset());
}

/// No two terms have the same atoms, in whichever order.
spec fn unlike(p: Polynomial) -> bool {
    forall|a: int, b: int|
        0 <= a < b < p.len() ==> (#[trigger] p[a]).1.to_multiset() != (#[trigger] p[b]).1.to_multiset()
}

/// In a sum without like terms, a coefficient is that of a term, or zero.
proof fn lemma_coefficient_of_unlike(p: Polynomial, atoms: Multiset<u32>)
    requires
        unlike(p),
    ensures
        forall|k: int|
            0 <= k < p.len() && (#[trigger] p[k]).1.to_multiset() == atoms ==> coefficient(p, atoms)
                == p[k].0,
        (forall|k: int| 0 <= k < p.len() ==> (#[trigger] p[k]).1.to_multiset() != atoms)
            ==> coefficient(p, atoms) == 0,
        i64::MIN <= coefficient(p, atoms) <= i64::MAX,
    decreases p.len(),
{
    if p.len() > 0 {
        let head = p.drop_last();
        assert forall|a: int, b: int| 0 <= a < b < head.len() implies (
        #[trigger] head[a]).1.to_multiset() != (#[trigger] head[b]).1.to_multiset() by {
            assert(head[a] == p[a] && head[b] == p[b]);
        }
        lemma_coefficient_of_unlike(head, atoms);
        assert(forall|k: int| 0 <= k < head.len() ==> head[k] == p[k]);
        let n = p.len() - 1;
        assert(p.last() == p[n]);
        if p[n].1.to_multiset() == atoms {
            assert forall|k: int| 0 <= k < head.len() implies (#[trigger] head[k]).1.to_multiset()
                != atoms by {
                assert(head[k] == p[k]);
                assert(p[k].1.to_multiset() != p[n].1.to_multiset());
            }
        }
    }
}

/// Changing the coefficient of a term changes that of its atoms alone.
proof fn lemma_coefficient_update(p: Polynomial, k: int, coef: i64, atoms: Multiset<u32>)
    requires
        0 <= k < p.len(),
    ensures
        coefficient(p.update(k, (coef, p[k].1)), atoms) == coefficient(p, atoms) + if p[k].1.to_multiset()
            == atoms {
            coef - p[k].0
        } else {
            0
        },
    decreases p.len(),
{
    let q = p.update(k, (coef, p[k].1));
    if k == p.len() - 1 {
        assert(q.drop_last() =~= p.drop_last());
    } else {
        assert(q.drop_last() =~= p.drop_last().update(k, (coef, p.drop_last()[k].1)));
        lemma_coefficient_update(p.drop_last(), k, coef, atoms);
    }
}

/// Atoms in ascending order that are the same in some order are the same list.
proof fn lemma_ascending_is_unique(a: Seq<u32>, b: Seq<u32>)
    requires
        ascending(a),
        ascending(b),
        a.to_multiset() == b.to_multiset(),
    ensures
        a == b,
{
    let leq = |x: u32, y: u32| x <= y;
    assert(vstd::relations::sorted_by(a, leq));
    assert(vstd::relations::sorted_by(b, leq));
    vstd::seq_lib::lemma_sorted_unique(a, b, leq);
}

/// The term with the atoms, if there is one.
fn find_term(terms: &Vec<Monomial>, atoms: &Vec<u32>) -> (r: Option<usize>)
    requires
        ascending(atoms@),
        forall|k: int| 0 <= k < terms@.len() ==> ascending((#[trigger] terms@[k]).atoms@),
    ensures
        match r {
            Some(k) => k < terms@.len() && terms@[k as int].atoms@ == atoms@,
            None => forall|k: int|
                0 <= k < terms@.len() ==> (#[trigger] terms@[k]).atoms@.to_multiset()
                    != atoms@.to_multiset(),
        },
{
    let mut k: usize = 0;
    while k < terms.len()
        invariant
            k <= terms@.len(),
            ascending(atoms@),
            forall|k: int| 0 <= k < terms@.len() ==> ascending((#[trigger] terms@[k]).atoms@),
            forall|j: int|
                0 <= j < k ==> (#[trigger] terms@[j]).atoms@.to_multiset() != atoms@.to_multiset(),
        decreases terms@.len() - k,
    {
        if same_list(&terms[k].atoms, atoms) {
            return Some(k);
        }
        assert(terms@[k as int].atoms@.to_multiset() != atoms@.to_multiset()) by {
            if terms@[k as int].atoms@.to_multiset() == atoms@.to_multiset() {
                lemma_ascending_is_unique(terms@[k as int].atoms@, atoms@);
            }
        }
        k += 1;
    }
    None
}

/// The sum with like terms added up, each with its atoms in order, unless that takes larger
/// numbers than there are.
fn collected(terms: &Vec<Monomial>) -> (r: Option<Vec<Monomial>>)
    ensures
        r is Some == addable(polynomial(terms@)),
        r matches Some(sum) ==> {
            &&& unlike(polynomial(sum@))
            &&& forall|k: int| 0 <= k < sum@.len() ==> ascending((#[trigger] sum@[k]).atoms@)
            &&& forall|atoms: Multiset<u32>| #[trigger]
                coefficient(polynomial(sum@), atoms) == coefficient(polynomial(terms@), atoms)
        },
{
    let ghost p = polynomial(terms@);
    let mut sum: Vec<Monomial> = Vec::new();
    let mut i: usize = 0;
    assert(polynomial(sum@) =~= p.take(0));
    while i < terms.len()
        invariant
            i <= terms@.len(),
            p == polynomial(terms@),
            unlike(polynomial(sum@)),
            forall|k: int| 0 <= k < sum@.len() ==> ascending((#[trigger] sum@[k]).atoms@),
            forall|atoms: Multiset<u32>| #[trigger]
                coefficient(polynomial(sum@), atoms) == coefficient(p.take(i as int), atoms),
            forall|j: int, atoms: Multiset<u32>|
                0 <= j <= i ==> i64::MIN <= #[trigger] coefficient(p.take(j), atoms) <= i64::MAX,
        decreases terms@.len() - i,
    {
        let mut term = terms[i].duplicate();
        sort_atoms(&mut term.atoms);
        let ghost m = term.atoms@.to_multiset();
        let ghost q = polynomial(sum@);
        let ghost next = p.take(i + 1);
        assert(next.drop_last() =~= p.take(i as int) && next.last() == terms@[i as int]@);
        match find_term(&sum, &term.atoms) {
            Some(k) => {
                proof {
                    lemma_coefficient_of_unlike(q, m);
                    assert(q[k as int] == sum@[k as int]@);
                }
                match sum[k].coef.checked_add(term.coef) {
                    Some(c) => {
                        let atoms = term.atoms;
                        sum.set(k, Monomial { coef: c, atoms });
                        assert(polynomial(sum@) =~= q.update(k as int, (c, q[k as int].1)));
                        assert forall|atoms: Multiset<u32>| #[trigger]
                            coefficient(polynomial(sum@), atoms) == coefficient(next, atoms) by {
                            lemma_coefficient_update(q, k as int, c, atoms);
                            assert(coefficient(q, atoms) == coefficient(p.take(i as int), atoms));
                        }
                    },
                    None => {
                        assert(coefficient(q, m) == coefficient(p.take(i as int), m));
                        assert(!(i64::MIN <= coefficient(next, m) <= i64::MAX));
                        return None;
                    },
                }
            },
            None => {
                let ghost t = term@;
                sum.push(term);
                assert(polynomial(sum@) =~= q.push(t));
                assert(q.push(t).drop_last() =~= q);
                assert forall|atoms: Multiset<u32>| #[trigger]
                    coefficient(polynomial(sum@), atoms) == coefficient(next, atoms) by {
                    assert(coefficient(q, atoms) == coefficient(p.take(i as int), atoms));
                }
                assert forall|a: int, b: int| 0 <= a < b < q.push(t).len() implies (
                #[trigger] q.push(t)[a]).1.to_multiset() != (
                #[trigger] q.push(t)[b]).1.to_multiset() by {
                    if b == q.len() {
                        assert(q.push(t)[a] == sum@[a]@);
                    } else {
                        assert(q.push(t)[a] == q[a] && q.push(t)[b] == q[b]);
                    }
                }
            },
        }
        i += 1;
        assert forall|j: int, atoms: Multiset<u32>| 0 <= j <= i implies i64::MIN
            <= #[trigger] coefficient(p.take(j), atoms) <= i64::MAX by {
            if j == i {
                lemma_coefficient_of_unlike(polynomial(sum@), atoms);
                assert(coefficient(polynomial(sum@), atoms) == coefficient(p.take(j), atoms));
            }
        }
    }
    assert(p.take(i as int) =~= p);
    Some(sum)
}

/// The sum in normal form, unless like terms add up to larger numbers than there are.
pub fn normalized(terms: &Vec<Monomial>) -> (r: Option<Vec<Monomial>>)
    ensures
        r is Some == addable(polynomial(terms@)),
        r matches Some(sum) ==> normal(polynomial(sum@)) && forall|atoms: Multiset<u32>| #[trigger]
            coefficient(polynomial(sum@), atoms) == coefficient(polynomial(terms@), atoms),
{
    let sum = match collected(terms) {
        Some(sum) => sum,
        None => return None,
    };
    let ghost q = polynomial(sum@);
    let mut out: Vec<Monomial> = Vec::new();
    let mut i: usize = 0;
    assert(polynomial(out@) =~= q.take(0));
    while i < sum.len()
        invariant
            i <= sum@.len(),
            q == polynomial(sum@),
            unlike(q),
            forall|k: int| 0 <= k < sum@.len() ==> ascending((#[trigger] sum@[k]).atoms@),
            forall|k: int|
                0 <= k < out@.len() ==> (#[trigger] out@[k]).coef != 0 && ascending(out@[k].atoms@),
            unlike(polynomial(out@)),
            forall|a: int, b: int|
                0 <= a < out@.len() && i <= b < q.len() ==> (
                #[trigger] out@[a]).atoms@.to_multiset() != (#[trigger] q[b]).1.to_multiset(),
            forall|atoms: Multiset<u32>| #[trigger]
                coefficient(polynomial(out@), atoms) == coefficient(q.take(i as int), atoms),
        decreases sum@.len() - i,
    {
        let ghost o = polynomial(out@);
        let ghost next = q.take(i + 1);
        assert(next.drop_last() =~= q.take(i as int) && next.last() == sum@[i as int]@);
        assert(q[i as int] == sum@[i as int]@);
        if sum[i].coef != 0 {
            let term = sum[i].duplicate();
            let ghost t = term@;
            out.push(term);
            assert(polynomial(out@) =~= o.push(t));
            assert(o.push(t).drop_last() =~= o);
            assert forall|a: int, b: int| 0 <= a < b < o.push(t).len() implies (
            #[trigger] o.push(t)[a]).1.to_multiset() != (
            #[trigger] o.push(t)[b]).1.to_multiset() by {
                if b == o.len() {
                    assert(o.push(t)[a] == out@[a]@);
                    assert(out@[a].atoms@.to_multiset() != q[i as int].1.to_multiset());
                } else {
                    assert(o.push(t)[a] == o[a] && o.push(t)[b] == o[b]);
                }
            }
        }
        assert forall|atoms: Multiset<u32>| #[trigger] coefficient(polynomial(out@), atoms)
            == coefficient(next, atoms) by {
            assert(coefficient(o, atoms) == coefficient(q.take(i as int), atoms));
        }
        i += 1;
    }
    assert(q.take(i as int) =~= q);
    let ghost o = polynomial(out@);
    assert forall|k: int| 0 <= k < o.len() implies (#[trigger] o[k]).0 != 0 && ascending(o[k].1) by {
        assert(o[k] == out@[k]@);
    }
    assert forall|a: int, b: int| 0 <= a < b < o.len() implies (#[trigger] o[a]).1 != (
    #[trigger] o[b]).1 by {
        assert(o[a].1.to_multiset() != o[b].1.to_multiset());
    }
    Some(out)
}

/// The greatest common divisor of two numbers divides both, and every common divisor of them
/// divides it.
pub proof fn law_gcd_is_greatest(a: nat, b: nat, d: nat)
    requires
        a > 0 || b > 0,
        d > 0,
    ensures
        gcd(a, b) > 0,
        a % gcd(a, b) == 0,
        b % gcd(a, b) == 0,
        a % d == 0 && b % d == 0 ==> gcd(a, b) % d == 0,
    decreases b,
{
    if b > 0 {
        let r = a % b;
        law_gcd_is_greatest(b, r, d);
        let g = gcd(b, r);
        lemma_remainder_shares(a, b, g);
        if b % d == 0 {
            lemma_remainder_shares(a, b, d);
        }
    } else {
        vstd::arithmetic::div_mod::lemma_mod_self_0(a as int);
    }
}

/// A divisor of a number divides another exactly if it divides the remainder.
proof fn lemma_remainder_shares(a: nat, b: nat, d: nat)
    requires
        b > 0,
        d > 0,
        b % d == 0,
    ensures
        a % d == (a % b) % d,
{
    let (r, q, k) = ((a % b) as int, (a / b) as int, (b / d) as int);
    vstd::arithmetic::div_mod::lemma_fundamental_div_mod(a as int, b as int);
    vstd::arithmetic::div_mod::lemma_fundamental_div_mod(b as int, d as int);
    assert(a == d * (k * q) + r) by (nonlinear_arith)
        requires
            a == b * q + r,
            b == d * k,
    ;
    vstd::arithmetic::div_mod::lemma_mod_multiples_vanish(k * q, r, d as int);
}

/// The content of a sum divides every coefficient, and whatever divides all of them divides it.
pub proof fn law_content_is_greatest(p: Polynomial, i: int, d: nat)
    requires
        0 <= i < p.len(),
        d > 0,
    ensures
        content(p) == 0 ==> p[i].0 == 0,
        content(p) > 0 ==> abs(p[i].0 as int) as nat % content(p) == 0,
        (forall|k: int| 0 <= k < p.len() ==> abs((#[trigger] p[k]).0 as int) as nat % d == 0)
            ==> content(p) % d == 0,
    decreases p.len(),
{
    let head = p.drop_last();
    let last = abs(p.last().0 as int) as nat;
    assert(p.last() == p[p.len() - 1]);
    if head.len() > 0 {
        law_content_is_greatest(head, if i < head.len() { i } else { 0 }, d);
        assert(forall|k: int| 0 <= k < head.len() ==> head[k] == p[k]);
    }
    if (forall|k: int| 0 <= k < p.len() ==> abs((#[trigger] p[k]).0 as int) as nat % d == 0) {
        assert forall|k: int| 0 <= k < head.len() implies abs((#[trigger] head[k]).0 as int) as nat
            % d == 0 by {
            assert(head[k] == p[k]);
        }
        vstd::arithmetic::div_mod::lemma_small_mod(0, d);
        assert(abs(p[p.len() - 1].0 as int) as nat % d == 0);
        assert(content(head) % d == 0);
    }
    if content(head) > 0 || last > 0 {
        law_gcd_is_greatest(content(head), last, d);
        if i < head.len() && content(head) > 0 {
            // What divides the content of the others divides each of them.
            let g = gcd(content(head), last);
            lemma_divides_through(abs(p[i].0 as int) as nat, content(head), g);
        }
    }
}

/// What divides a divisor of a number divides the number.
proof fn lemma_divides_through(a: nat, b: nat, g: nat)
    requires
        b > 0,
        g > 0,
        a % b == 0,
        b % g == 0,
    ensures
        a % g == 0,
{
    lemma_remainder_shares(a, b, g);
}

/// The contents of the dimensions as they are written, multiplied.
pub open spec fn contents(table: DimTableView, dims: Seq<TDim>) -> nat
    decreases dims.len(),
{
    if dims.len() == 0 {
        1
    } else {
        contents(table, dims.drop_last()) * content(written(table, dims.last()))
    }
}

/// Sums that are all one or minus one have a divisor of one.
proof fn lemma_units_divide(factors: Seq<Polynomial>)
    requires
        unit_sign(factors) != 0,
    ensures
        divisor(factors) == 1,
    decreases factors.len(),
{
    if factors.len() > 0 {
        lemma_units_divide(factors.drop_last());
        lemma_content_of_constant(1);
        lemma_content_of_constant(-1i64);
        assert(content(factors.last()) == 1);
        assert(divisor(factors) == 1 * content(factors.last()));
    }
}

/// The content of a constant is its magnitude.
proof fn lemma_content_of_constant(v: i64)
    ensures
        content(constant(v)) == abs(v as int),
{
    reveal_with_fuel(content, 2);
    reveal_with_fuel(gcd, 3);
    if v != 0 {
        assert(constant(v).drop_last() =~= Seq::empty());
    }
}

/// The divisor of sums that are those of the dimensions is the product of the contents.
proof fn lemma_divisor_of_map(table: DimTableView, dims: Seq<TDim>)
    requires
        forall|i: int|
            0 <= i < dims.len() ==> simplified(table, #[trigger] dims[i]) == written(table, dims[i]),
    ensures
        divisor(dims.map_values(|d: TDim| simplified(table, d))) == contents(table, dims),
    decreases dims.len(),
{
    let f = |d: TDim| simplified(table, d);
    if dims.len() > 0 {
        let head = dims.drop_last();
        assert forall|i: int| 0 <= i < head.len() implies simplified(table, #[trigger] head[i])
            == written(table, head[i]) by {
            assert(head[i] == dims[i]);
        }
        lemma_divisor_of_map(table, head);
        assert(dims.map_values(f).drop_last() =~= head.map_values(f));
        assert(dims[dims.len() - 1] == dims.last());
    }
}

/// Where nothing is asserted of the symbols of the dimensions, the greatest number known to
/// divide their product is the product of those known to divide each.
pub proof fn law_divisors_multiply(table: DimTableView, dims: Seq<TDim>)
    requires
        forall|i: int|
            0 <= i < dims.len() ==> simplified(table, #[trigger] dims[i]) == written(table, dims[i]),
    ensures
        product_divisor(table, dims) == contents(table, dims),
    decreases dims.len(),
{
    if dims.len() > 0 {
        let head = dims.drop_last();
        assert forall|i: int| 0 <= i < head.len() implies simplified(table, #[trigger] head[i])
            == written(table, head[i]) by {
            assert(head[i] == dims[i]);
        }
        law_divisors_multiply(table, head);
        lemma_divisor_of_map(table, dims);
        lemma_content_of_constant(1);
        let last = content(written(table, dims.last()));
        let one = seq![written(table, dims.last())];
        if dims.last() == TDim::Val(1) {
            assert(contents(table, head) * 1 == contents(table, head));
        } else if unit_sign(factors(table, head)) == 1 {
            lemma_units_divide(factors(table, head));
            reveal_with_fuel(divisor, 2);
            assert(one.drop_last() =~= Seq::empty());
            assert(divisor(one) == 1 * last);
        }
    }
}

/// The product of numbers, in magnitude.
pub open spec fn magnitude_product(dims: Seq<TDim>) -> nat
    decreases dims.len(),
{
    if dims.len() == 0 {
        1
    } else {
        let v = match dims.last() {
            TDim::Val(v) => v as int,
            _ => 0,
        };
        magnitude_product(dims.drop_last()) * (if v < 0 { -v } else { v }) as nat
    }
}

/// The size of a batch of known dimensions is their product.
pub proof fn law_known_sizes_multiply(table: DimTableView, dims: Seq<TDim>)
    requires
        forall|i: int| 0 <= i < dims.len() ==> (#[trigger] dims[i]) is Val,
    ensures
        product_divisor(table, dims) == magnitude_product(dims),
{
    law_divisors_multiply(table, dims);
    lemma_contents_of_constants(table, dims);
}

/// The contents of known dimensions multiply to their product.
proof fn lemma_contents_of_constants(table: DimTableView, dims: Seq<TDim>)
    requires
        forall|i: int| 0 <= i < dims.len() ==> (#[trigger] dims[i]) is Val,
    ensures
        contents(table, dims) == magnitude_product(dims),
    decreases dims.len(),
{
    if dims.len() > 0 {
        let head = dims.drop_last();
        assert forall|i: int| 0 <= i < head.len() implies (#[trigger] head[i]) is Val by {
            assert(head[i] == dims[i]);
        }
        lemma_contents_of_constants(table, head);
        assert(dims[dims.len() - 1] is Val);
        lemma_content_of_constant(dims.last()->Val_0);
    }
}

/// A dimension alone counts as it is written; two of which neither is one, nor the first written
/// as a constant one, count with all that is known of their symbols put in.
pub proof fn law_products_put_in_what_is_known(table: DimTableView, x: TDim, y: TDim)
    requires
        x != TDim::Val(1),
        y != TDim::Val(1),
        written(table, x) != constant(1),
    ensures
        product_divisor(table, seq![x]) == content(written(table, x)),
        product_divisor(table, seq![x, y]) == content(simplified(table, x)) * content(
            simplified(table, y),
        ),
        product_divisor(table, seq![x, TDim::Val(1)]) == content(written(table, x)),
{
    reveal_with_fuel(factors, 3);
    reveal_with_fuel(unit_sign, 3);
    reveal_with_fuel(divisor, 3);
    let one = seq![written(table, x)];
    assert(seq![x].drop_last() =~= Seq::empty());
    assert(one.drop_last() =~= Seq::empty());
    assert(factors(table, seq![x]) == one);
    assert(divisor(one) == 1 * content(written(table, x)));
    assert(seq![x, y].drop_last() =~= seq![x]);
    assert(seq![x, TDim::Val(1)].drop_last() =~= seq![x]);
    assert(unit_sign(one) != 1);
    let both = seq![x, y].map_values(|d: TDim| simplified(table, d));
    assert(both =~= seq![simplified(table, x), simplified(table, y)]);
    assert(both.drop_last() =~= seq![simplified(table, x)]);
    assert(both.drop_last().drop_last() =~= Seq::empty());
    assert(divisor(both.drop_last()) == 1 * content(simplified(table, x)));
}

/// The product of known dimensions, in magnitude, zero counted as one.
pub open spec fn nonzero_product(dims: Seq<TDim>) -> int
    decreases dims.len(),
{
    if dims.len() == 0 {
        1
    } else {
        let v = match dims.last() {
            TDim::Val(v) => v as int,
            _ => 0,
        };
        nonzero_product(dims.drop_last()) * (if v == 0 {
            1
        } else if v < 0 {
            -v
        } else {
            v
        })
    }
}

/// The weight of a constant is its magnitude, or one.
proof fn lemma_weight_of_constant(v: i64)
    ensures
        weight(constant(v)) == (if v == 0 { 1 } else { abs(v as int) }),
{
    reveal_with_fuel(magnitude, 2);
    if v != 0 {
        assert(constant(v).drop_last() =~= Seq::empty());
    }
}

/// The weights of known dimensions multiply to their product, and so do those of their factors
/// at most.
proof fn lemma_weights_of_constants(table: DimTableView, dims: Seq<TDim>)
    requires
        forall|i: int| 0 <= i < dims.len() ==> (#[trigger] dims[i]) is Val,
    ensures
        1 <= nonzero_product(dims),
        product_weight(dims.map_values(|d: TDim| simplified(table, d))) == nonzero_product(dims),
        product_weight(factors(table, dims)) <= nonzero_product(dims),
    decreases dims.len(),
{
    let f = |d: TDim| simplified(table, d);
    if dims.len() > 0 {
        let head = dims.drop_last();
        assert forall|i: int| 0 <= i < head.len() implies (#[trigger] head[i]) is Val by {
            assert(head[i] == dims[i]);
        }
        lemma_weights_of_constants(table, head);
        assert(dims[dims.len() - 1] is Val);
        let v = dims.last()->Val_0;
        lemma_weight_of_constant(v);
        assert(dims.map_values(f).drop_last() =~= head.map_values(f));
        let one = seq![constant(v)];
        reveal_with_fuel(product_weight, 2);
        assert(one.drop_last() =~= Seq::empty());
        let (p, w) = (nonzero_product(head), weight(constant(v)));
        assert(product_weight(one) == 1 * w);
        assert(1 <= p * w && w <= p * w && p <= p * w) by (nonlinear_arith)
            requires
                p >= 1,
                w >= 1,
        ;
    }
}

/// Known dimensions whose product is a machine integer can be multiplied.
pub proof fn law_known_dimensions_multiply(table: DimTableView, dims: Seq<TDim>)
    requires
        forall|i: int| 0 <= i < dims.len() ==> (#[trigger] dims[i]) is Val,
        nonzero_product(dims) <= i64::MAX,
    ensures
        multipliable(table, dims),
{
    lemma_weights_of_constants(table, dims);
}

/// A symbol, or an expression of the table whose coefficients add up to a machine integer, can
/// be multiplied alone.
pub proof fn law_one_dimension_multiplies(table: DimTableView, d: TDim)
    requires
        d matches TDim::Expr(e) ==> e < table.exprs.len() && magnitude(
            table.exprs[e as int].written,
        ) <= i64::MAX,
        !(d is Val),
    ensures
        multipliable(table, seq![d]),
{
    reveal_with_fuel(factors, 2);
    reveal_with_fuel(product_weight, 2);
    reveal_with_fuel(magnitude, 2);
    assert(seq![d].drop_last() =~= Seq::empty());
    let one = seq![written(table, d)];
    assert(one.drop_last() =~= Seq::empty());
    if let TDim::Sym(s) = d {
        assert(symbol(s).drop_last() =~= Seq::empty());
    }
    assert(product_weight(one) == 1 * weight(written(table, d)));
}

/// The contents of the dimensions with all that is known put in, multiplied.
pub open spec fn settled_contents(table: DimTableView, dims: Seq<TDim>) -> nat
    decreases dims.len(),
{
    if dims.len() == 0 {
        1
    } else {
        settled_contents(table, dims.drop_last()) * content(simplified(table, dims.last()))
    }
}

/// The divisor of the simplified dimensions is the product of their contents.
proof fn lemma_divisor_of_settled(table: DimTableView, dims: Seq<TDim>)
    ensures
        divisor(dims.map_values(|d: TDim| simplified(table, d))) == settled_contents(table, dims),
    decreases dims.len(),
{
    let f = |d: TDim| simplified(table, d);
    if dims.len() > 0 {
        lemma_divisor_of_settled(table, dims.drop_last());
        assert(dims.map_values(f).drop_last() =~= dims.drop_last().map_values(f));
    }
}

/// Multiplying a product that is known to have another divisor than one by a dimension other than
/// one puts in all that is known of all the dimensions; multiplying by one changes nothing.
pub proof fn law_products_settle(table: DimTableView, dims: Seq<TDim>, d: TDim)
    ensures
        product_divisor(table, dims.push(TDim::Val(1))) == product_divisor(table, dims),
        d != TDim::Val(1) && product_divisor(table, dims) != 1 ==> product_divisor(
            table,
            dims.push(d),
        ) == settled_contents(table, dims.push(d)),
        product_divisor(table, Seq::empty()) == 1,
{
    assert(dims.push(d).drop_last() =~= dims);
    assert(dims.push(TDim::Val(1)).drop_last() =~= dims);
    if unit_sign(factors(table, dims)) == 1 {
        lemma_units_divide(factors(table, dims));
    }
    lemma_divisor_of_settled(table, dims.push(d));
}

/// What a dimension is, in both forms: a constant is itself; a symbol is itself as it is written,
/// and otherwise what the first that is listed for it says; an expression is what the table says.
pub proof fn law_forms_of_a_dimension(
    table: DimTableView,
    v: i64,
    s: u32,
    other: u32,
    e: u32,
    p: Polynomial,
)
    ensures
        written(table, TDim::Val(v)) == constant(v),
        simplified(table, TDim::Val(v)) == constant(v),
        written(table, TDim::Sym(s)) == seq![(1i64, seq![s])],
        written(table, TDim::Expr(e)) == table.exprs[e as int].written,
        simplified(table, TDim::Expr(e)) == table.exprs[e as int].simplified,
        settled(Seq::empty(), s) == seq![(1i64, seq![s])],
        settled(seq![(s, p)] + table.known, s) == p,
        other != s ==> settled(seq![(other, p)] + table.known, s) == settled(table.known, s),
        simplified(table, TDim::Sym(s)) == settled(table.known, s),
        v != 0 ==> constant(v) == seq![(v, Seq::<u32>::empty())],
        constant(0).len() == 0,
{
    assert((seq![(other, p)] + table.known).skip(1) =~= table.known);
}

/// The weights of the dimensions, each in the heavier of its forms, multiplied.
pub open spec fn heavier_product(table: DimTableView, dims: Seq<TDim>) -> int
    decreases dims.len(),
{
    if dims.len() == 0 {
        1
    } else {
        let (w, s) = (
            magnitude(written(table, dims.last())),
            magnitude(simplified(table, dims.last())),
        );
        let heavier = if w >= s { w } else { s };
        heavier_product(table, dims.drop_last()) * (if heavier < 1 { 1 } else { heavier })
    }
}

/// The weights of the factors multiply to no more than those of the heavier forms.
proof fn lemma_factors_weigh_less(table: DimTableView, dims: Seq<TDim>)
    ensures
        1 <= heavier_product(table, dims),
        1 <= product_weight(dims.map_values(|d: TDim| simplified(table, d))) <= heavier_product(
            table,
            dims,
        ),
        product_weight(factors(table, dims)) <= heavier_product(table, dims),
    decreases dims.len(),
{
    let f = |d: TDim| simplified(table, d);
    if dims.len() > 0 {
        let head = dims.drop_last();
        lemma_factors_weigh_less(table, head);
        assert(dims.map_values(f).drop_last() =~= head.map_values(f));
        let (w, s) = (written(table, dims.last()), simplified(table, dims.last()));
        let one = seq![w];
        reveal_with_fuel(product_weight, 2);
        assert(one.drop_last() =~= Seq::empty());
        assert(product_weight(one) == 1 * weight(w));
        let h = if magnitude(w) >= magnitude(s) { weight(w) } else { weight(s) };
        let (p, q) = (heavier_product(table, head), product_weight(head.map_values(f)));
        let x = weight(s);
        assert(heavier_product(table, dims) == p * h);
        assert(1 <= p * h && h <= p * h && p <= p * h && 1 <= q * x <= p * h) by (nonlinear_arith)
            requires
                p >= 1,
                h >= 1,
                1 <= x <= h,
                1 <= q <= p,
        ;
    }
}

/// Dimensions of the table whose coefficients multiply to a machine integer can be multiplied.
pub proof fn law_light_dimensions_multiply(table: DimTableView, dims: Seq<TDim>)
    requires
        forall|i: int|
            0 <= i < dims.len() ==> ((#[trigger] dims[i]) matches TDim::Expr(e) ==> e
                < table.exprs.len()),
        heavier_product(table, dims) <= i64::MAX,
    ensures
        multipliable(table, dims),
{
    lemma_factors_weigh_less(table, dims);
    assert forall|i: int| 0 <= i < dims.len() implies known(table, #[trigger] dims[i]) by {}
}

/// Terms whose coefficients add up to a machine integer in magnitude can be added up.
pub proof fn law_light_sums_add_up(p: Polynomial)
    requires
        magnitude(p) <= i64::MAX,
    ensures
        addable(p),
{
    assert forall|i: int, atoms: Multiset<u32>| 0 <= i <= p.len() implies i64::MIN
        <= #[trigger] coefficient(p.take(i), atoms) <= i64::MAX by {
        lemma_coefficient_bounded(p.take(i), atoms);
        lemma_magnitude_grows(p, i);
    }
}

/// A coefficient is no larger than all of them together.
proof fn lemma_coefficient_bounded(p: Polynomial, atoms: Multiset<u32>)
    ensures
        abs(coefficient(p, atoms)) <= magnitude(p),
    decreases p.len(),
{
    if p.len() > 0 {
        lemma_coefficient_bounded(p.drop_last(), atoms);
    }
}

/// A product is one or minus one if all its factors are, and the number of those that are minus
/// one tells which.
pub proof fn law_units(factors: Seq<Polynomial>, f: Polynomial)
    ensures
        unit_sign(Seq::empty()) == 1,
        f == seq![(1i64, Seq::<u32>::empty())] ==> unit_sign(factors.push(f)) == unit_sign(factors),
        f == seq![(-1i64, Seq::<u32>::empty())] ==> unit_sign(factors.push(f)) == -unit_sign(
            factors,
        ),
        f != seq![(1i64, Seq::<u32>::empty())] && f != seq![(-1i64, Seq::<u32>::empty())]
            ==> unit_sign(factors.push(f)) == 0,
{
    assert(factors.push(f).drop_last() =~= factors);
    assert(constant(1) =~= seq![(1i64, Seq::<u32>::empty())]);
    assert(constant(-1i64) =~= seq![(-1i64, Seq::<u32>::empty())]);
    assert(constant(1)[0].0 != constant(-1i64)[0].0);
}

/// Dimensions are multiplied one after the other. As long as the product is one, what is
/// multiplied next is taken as it is written; behind that, all that is known is put in.
pub proof fn law_when_what_is_known_is_put_in(table: DimTableView, dims: Seq<TDim>, d: TDim)
    ensures
        ({
            let one = unit_sign(factors(table, dims)) == 1;
            let all = dims.push(d).map_values(|x: TDim| simplified(table, x));
            &&& factors(table, Seq::empty()).len() == 0
            &&& d == TDim::Val(1) ==> factors(table, dims.push(d)) == factors(table, dims)
            &&& d != TDim::Val(1) && one ==> factors(table, dims.push(d)) == seq![written(table, d)]
                && product_divisor(table, dims.push(d)) == content(written(table, d))
            &&& d != TDim::Val(1) && !one ==> factors(table, dims.push(d)) == all
                && product_divisor(table, dims.push(d)) == settled_contents(table, dims.push(d))
        }),
{
    assert(dims.push(d).drop_last() =~= dims);
    lemma_divisor_of_settled(table, dims.push(d));
    let single = seq![written(table, d)];
    reveal_with_fuel(divisor, 2);
    assert(single.drop_last() =~= Seq::empty());
    assert(1 * content(written(table, d)) == content(written(table, d)));
}

/// A sum is in normal form if no coefficient is zero, the atoms of each term go up, and no two
/// terms have the same atoms; a table is well formed if all its sums are.
pub proof fn law_normal_forms(table: DimTable, p: Polynomial)
    ensures
        normal(p) == ((forall|i: int| 0 <= i < p.len() ==> (#[trigger] p[i]).0 != 0) && (forall|
            i: int,
            j: int,
            k: int,
        |
            0 <= i < p.len() && 0 <= j <= k < p[i].1.len() ==> #[trigger] p[i].1[j]
                <= #[trigger] p[i].1[k]) && (forall|i: int, j: int|
            0 <= i < j < p.len() ==> (#[trigger] p[i]).1 != (#[trigger] p[j]).1)),
        table.wf() == ((forall|i: int|
            0 <= i < table.exprs@.len() ==> normal(polynomial((#[trigger] table.exprs@[i]).written@))
                && normal(polynomial(table.exprs@[i].simplified@))) && (forall|i: int|
            0 <= i < table.known@.len() ==> normal(
                polynomial((#[trigger] table.known@[i]).simplified@),
            ))),
{
    let up = forall|i: int, j: int, k: int|
        0 <= i < p.len() && 0 <= j <= k < p[i].1.len() ==> #[trigger] p[i].1[j]
            <= #[trigger] p[i].1[k];
    let ascend = forall|i: int| 0 <= i < p.len() ==> ascending((#[trigger] p[i]).1);
    if up {
        assert forall|i: int| 0 <= i < p.len() implies ascending((#[trigger] p[i]).1) by {
            assert forall|j: int, k: int| 0 <= j <= k < p[i].1.len() implies p[i].1[j]
                <= p[i].1[k] by {}
        }
    }
    if ascend {
        assert forall|i: int, j: int, k: int|
            0 <= i < p.len() && 0 <= j <= k < p[i].1.len() implies #[trigger] p[i].1[j]
            <= #[trigger] p[i].1[k] by {
            assert(ascending(p[i].1));
        }
    }
    assert forall|i: int| 0 <= i < table.exprs@.len() implies (#[trigger] table@.exprs[i])
        == table.exprs@[i]@ by {}
    assert forall|i: int| 0 <= i < table.known@.len() implies (#[trigger] table@.known[i])
        == table.known@[i]@ by {}
    let exprs = forall|i: int|
        0 <= i < table.exprs@.len() ==> normal(polynomial((#[trigger] table.exprs@[i]).written@))
            && normal(polynomial(table.exprs@[i].simplified@));
    let known = forall|i: int|
        0 <= i < table.known@.len() ==> normal(polynomial((#[trigger] table.known@[i]).simplified@));
    if table.wf() {
        assert forall|i: int| 0 <= i < table.exprs@.len() implies normal(
            polynomial((#[trigger] table.exprs@[i]).written@),
        ) && normal(polynomial(table.exprs@[i].simplified@)) by {
            assert(normal(table@.exprs[i].written));
        }
        assert forall|i: int| 0 <= i < table.known@.len() implies normal(
            polynomial((#[trigger] table.known@[i]).simplified@),
        ) by {
            assert(normal(table@.known[i].1));
        }
    }
    if exprs && known {
        assert forall|i: int| 0 <= i < table@.exprs.len() implies normal(
            (#[trigger] table@.exprs[i]).written,
        ) && normal(table@.exprs[i].simplified) by {
            assert(normal(polynomial(table.exprs@[i].written@)));
        }
        assert forall|i: int| 0 <= i < table@.known.len() implies normal(
            (#[trigger] table@.known[i]).1,
        ) by {
            assert(normal(polynomial(table.known@[i].simplified@)));
        }
    }
}

/// A term counts toward the coefficient of its atoms, in whatever order they stand, and toward no
/// other; and like terms add up one after the other if none of those sums is larger than a
/// machine integer can be.
pub proof fn law_terms_add_up(p: Polynomial, term: (i64, Seq<u32>), atoms: Multiset<u32>)
    ensures
        coefficient(Seq::empty(), atoms) == 0,
        term.1.to_multiset() == atoms ==> coefficient(p.push(term), atoms) == coefficient(p, atoms)
            + term.0,
        term.1.to_multiset() != atoms ==> coefficient(p.push(term), atoms) == coefficient(p, atoms),
        addable(Seq::empty()),
        addable(p.push(term)) == (addable(p) && i64::MIN <= coefficient(p, term.1.to_multiset())
            + term.0 <= i64::MAX),
{
    let q = p.push(term);
    let own = term.1.to_multiset();
    assert(q.drop_last() =~= p);
    assert(q.take(q.len() as int) =~= q);
    assert(p.take(p.len() as int) =~= p);
    if addable(q) {
        assert(i64::MIN <= coefficient(q.take(q.len() as int), own) <= i64::MAX);
        assert forall|i: int, a: Multiset<u32>| 0 <= i <= p.len() implies i64::MIN
            <= #[trigger] coefficient(p.take(i), a) <= i64::MAX by {
            assert(q.take(i) =~= p.take(i));
            assert(i64::MIN <= coefficient(q.take(i), a) <= i64::MAX);
        }
    }
    if addable(p) && i64::MIN <= coefficient(p, own) + term.0 <= i64::MAX {
        assert forall|i: int, a: Multiset<u32>| 0 <= i <= q.len() implies i64::MIN
            <= #[trigger] coefficient(q.take(i), a) <= i64::MAX by {
            if i <= p.len() {
                assert(q.take(i) =~= p.take(i));
                assert(i64::MIN <= coefficient(p.take(i), a) <= i64::MAX);
            } else {
                assert(q.take(i) =~= q);
                assert(i64::MIN <= coefficient(p.take(p.len() as int), a) <= i64::MAX);
            }
        }
    }
    let none = Seq::<(i64, Seq<u32>)>::empty();
    assert forall|i: int, a: Multiset<u32>| 0 <= i <= none.len() implies i64::MIN
        <= #[trigger] coefficient(none.take(i), a) <= i64::MAX by {
        assert(none.take(i) =~= none);
    }
}

} // verus!
