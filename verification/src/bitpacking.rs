//! Unpacking of bits, written to and read from the textual exchange format.

use crate::model::OutletId;
use crate::text::{decimal, lemma_decimal_roundtrip, numeral_value, same_text, to_decimal};
use vstd::prelude::*;

verus! {

/// Unpacks numbers of a few bits each.
#[derive(Debug, Clone, Copy, PartialEq, Eq, Structural)]
pub struct BitUnpack {
    pub bit_width: usize,
}

/// A type of the exchange format.
#[derive(Debug, Clone, Copy, PartialEq, Eq, Structural)]
pub enum TypeName {
    Integer,
    Scalar,
    Logical,
    String,
}

/// The type of a parameter or a result.
#[derive(Debug, Clone, Copy, PartialEq, Eq, Structural)]
pub enum TypeSpec {
    Single(TypeName),
    Tensor(TypeName),
}

/// A parameter of a primitive.
#[derive(Debug)]
pub struct Parameter {
    pub id: String,
    pub spec: TypeSpec,
}

/// A result of a primitive.
#[derive(Debug)]
pub struct ResultDecl {
    pub id: String,
    pub spec: TypeSpec,
}

/// A type of operator that can be written.
#[derive(Debug, Clone, Copy, PartialEq, Eq, Structural)]
pub enum OpType {
    BitUnpack,
    /// Any other, numbered.
    Other(u64),
}

/// What writes an operator.
#[derive(Debug, Clone, Copy, PartialEq, Eq, Structural)]
pub enum Dumper {
    SerBitUnpack,
    /// Any other, numbered.
    Other(u64),
}

/// What reads an invocation of a primitive.
#[derive(Debug, Clone, Copy, PartialEq, Eq, Structural)]
pub enum Loader {
    DeBitUnpack,
    /// Any other, numbered.
    Other(u64),
}

/// A primitive of the exchange format.
#[derive(Debug)]
pub struct PrimitiveDecl {
    pub id: String,
    pub parameters: Vec<Parameter>,
    pub results: Vec<ResultDecl>,
    pub to_tract: Loader,
}

/// A [`PrimitiveDecl`] by value.
pub struct PrimitiveDeclView {
    pub id: Seq<char>,
    pub parameters: Seq<(Seq<char>, TypeSpec)>,
    pub results: Seq<(Seq<char>, TypeSpec)>,
    pub to_tract: Loader,
}

impl View for PrimitiveDecl {
    type V = PrimitiveDeclView;

    open spec fn view(&self) -> PrimitiveDeclView {
        PrimitiveDeclView {
            id: self.id@,
            parameters: parameter_views(self.parameters@),
            results: self.results@.map_values(|r: ResultDecl| (r.id@, r.spec)),
            to_tract: self.to_tract,
        }
    }
}

/// Parameters by value.
pub open spec fn parameter_views(parameters: Seq<Parameter>) -> Seq<(Seq<char>, TypeSpec)> {
    parameters.map_values(|p: Parameter| (p.id@, p.spec))
}

/// What is known of the exchange format. What was registered last counts.
#[derive(Debug)]
pub struct Registry {
    pub dumpers: Vec<(OpType, Dumper)>,
    pub primitives: Vec<PrimitiveDecl>,
}

/// What was registered last for the type of operator.
pub open spec fn last_dumper(dumpers: Seq<(OpType, Dumper)>, op: OpType) -> Option<Dumper>
    decreases dumpers.len(),
{
    if dumpers.len() == 0 {
        None
    } else if dumpers.last().0 == op {
        Some(dumpers.last().1)
    } else {
        last_dumper(dumpers.drop_last(), op)
    }
}

/// What was registered last under the name.
pub open spec fn last_primitive(primitives: Seq<PrimitiveDecl>, id: Seq<char>) -> Option<
    PrimitiveDeclView,
>
    decreases primitives.len(),
{
    if primitives.len() == 0 {
        None
    } else if primitives.last().id@ == id {
        Some(primitives.last()@)
    } else {
        last_primitive(primitives.drop_last(), id)
    }
}

impl Registry {
    /// What writes operators of the type.
    pub open spec fn spec_dumper(&self, op: OpType) -> Option<Dumper> {
        last_dumper(self.dumpers@, op)
    }

    /// The primitive of the name.
    pub open spec fn spec_primitive(&self, id: Seq<char>) -> Option<PrimitiveDeclView> {
        last_primitive(self.primitives@, id)
    }

    /// Registers what writes operators of a type.
    pub fn register_dumper(&mut self, op: OpType, dumper: Dumper)
        ensures
            final(self).spec_dumper(op) == Some(dumper),
            forall|o: OpType| o != op ==> #[trigger] final(self).spec_dumper(o) == old(
                self,
            ).spec_dumper(o),
            final(self).primitives == old(self).primitives,
    {
        self.dumpers.push((op, dumper));
        assert(self.dumpers@.drop_last() =~= old(self).dumpers@);
    }

    /// Registers a primitive.
    pub fn register_primitive(&mut self, decl: PrimitiveDecl)
        ensures
            final(self).spec_primitive(decl@.id) == Some(decl@),
            forall|id: Seq<char>| id != decl@.id ==> #[trigger] final(self).spec_primitive(id)
                == old(self).spec_primitive(id),
            final(self).dumpers == old(self).dumpers,
    {
        self.primitives.push(decl);
        assert(self.primitives@.drop_last() =~= old(self).primitives@);
    }

    /// What writes operators of the type, if anything does.
    pub fn dumper(&self, op: OpType) -> (r: Option<Dumper>)
        ensures
            r == self.spec_dumper(op),
    {
        let mut n: usize = self.dumpers.len();
        assert(self.dumpers@.take(n as int) =~= self.dumpers@);
        while n > 0
            invariant
                n <= self.dumpers@.len(),
                self.spec_dumper(op) == last_dumper(self.dumpers@.take(n as int), op),
            decreases n,
        {
            assert(self.dumpers@.take(n as int).drop_last() =~= self.dumpers@.take(n - 1));
            n -= 1;
            if self.dumpers[n].0 == op {
                return Some(self.dumpers[n].1);
            }
        }
        None
    }

    /// The primitive of the name, if there is one.
    pub fn primitive(&self, id: &str) -> (r: Option<&PrimitiveDecl>)
        ensures
            match r {
                Some(p) => self.spec_primitive(id@) == Some(p@),
                None => self.spec_primitive(id@) is None,
            },
    {
        let mut n: usize = self.primitives.len();
        assert(self.primitives@.take(n as int) =~= self.primitives@);
        while n > 0
            invariant
                n <= self.primitives@.len(),
                self.spec_primitive(id@) == last_primitive(self.primitives@.take(n as int), id@),
            decreases n,
        {
            assert(self.primitives@.take(n as int).drop_last() =~= self.primitives@.take(n - 1));
            n -= 1;
            if same_text(self.primitives[n].id.as_str(), id) {
                return Some(&self.primitives[n]);
            }
        }
        None
    }
}

/// The primitive that unpacks bits: it takes a tensor and the width of a number in bits, and
/// puts out a tensor.
pub open spec fn bit_unpack_decl() -> PrimitiveDeclView {
    PrimitiveDeclView {
        id: "tract_core_dyn_bit_unpack"@,
        parameters: seq![
            ("input"@, TypeSpec::Tensor(TypeName::Scalar)),
            ("bit_width"@, TypeSpec::Single(TypeName::Integer)),
        ],
        results: seq![("output"@, TypeSpec::Tensor(TypeName::Scalar))],
        to_tract: Loader::DeBitUnpack,
    }
}

/// Registers what writes and reads the unpacking of bits.
pub fn register(registry: &mut Registry)
    ensures
        final(registry).spec_dumper(OpType::BitUnpack) == Some(Dumper::SerBitUnpack),
        final(registry).spec_primitive(bit_unpack_decl().id) == Some(bit_unpack_decl()),
        forall|o: OpType|
            o != OpType::BitUnpack ==> #[trigger] final(registry).spec_dumper(o) == old(
                registry,
            ).spec_dumper(o),
        forall|id: Seq<char>|
            id != bit_unpack_decl().id ==> #[trigger] final(registry).spec_primitive(id) == old(
                registry,
            ).spec_primitive(id),
{
    registry.register_dumper(OpType::BitUnpack, Dumper::SerBitUnpack);
    let ghost middle = *registry;
    let parameters = vec![
        Parameter { id: "input".to_owned(), spec: TypeSpec::Tensor(TypeName::Scalar) },
        Parameter { id: "bit_width".to_owned(), spec: TypeSpec::Single(TypeName::Integer) },
    ];
    let results = vec![
        ResultDecl { id: "output".to_owned(), spec: TypeSpec::Tensor(TypeName::Scalar) },
    ];
    let decl = PrimitiveDecl {
        id: "tract_core_dyn_bit_unpack".to_owned(),
        parameters,
        results,
        to_tract: Loader::DeBitUnpack,
    };
    assert(decl@.parameters =~= bit_unpack_decl().parameters);
    assert(decl@.results =~= bit_unpack_decl().results);
    registry.register_primitive(decl);
    assert forall|o: OpType| o != OpType::BitUnpack implies #[trigger] registry.spec_dumper(o)
        == old(registry).spec_dumper(o) by {
        assert(middle.spec_dumper(o) == old(registry).spec_dumper(o));
    }
}

/// A value handed to a primitive: an expression of the text, or a number.
#[derive(Debug)]
pub enum RValue<Expr> {
    Expr(Expr),
    Numeric(String),
}

/// An argument of an invocation, with the name of the parameter or by position.
#[derive(Debug)]
pub struct Argument<Expr> {
    pub id: Option<String>,
    pub rvalue: RValue<Expr>,
}

/// An invocation of a primitive.
#[derive(Debug)]
pub struct Invocation<Expr> {
    pub id: String,
    pub arguments: Vec<Argument<Expr>>,
}

/// A graph on its way to text: the expressions that stand for the outlets written so far.
#[derive(Debug)]
pub struct IntoAst<Expr> {
    pub mapping: Vec<(OutletId, Expr)>,
}

/// The expression that stands for the outlet.
pub open spec fn mapped<Expr>(mapping: Seq<(OutletId, Expr)>, outlet: OutletId) -> Option<Expr>
    decreases mapping.len(),
{
    if mapping.len() == 0 {
        None
    } else if mapping.last().0 == outlet {
        Some(mapping.last().1)
    } else {
        mapped(mapping.drop_last(), outlet)
    }
}

impl<Expr: Copy> IntoAst<Expr> {
    /// The expression that stands for the outlet, if there is one.
    pub fn expression(&self, outlet: OutletId) -> (r: Option<Expr>)
        ensures
            r == mapped(self.mapping@, outlet),
    {
        let mut n: usize = self.mapping.len();
        assert(self.mapping@.take(n as int) =~= self.mapping@);
        while n > 0
            invariant
                n <= self.mapping@.len(),
                mapped(self.mapping@, outlet) == mapped(self.mapping@.take(n as int), outlet),
            decreases n,
        {
            assert(self.mapping@.take(n as int).drop_last() =~= self.mapping@.take(n - 1));
            n -= 1;
            if self.mapping[n].0 == outlet {
                return Some(self.mapping[n].1);
            }
        }
        None
    }
}

/// The invocation that unpacks the bits of the input: the input by position, and the width
/// by name.
pub open spec fn writes<Expr>(invocation: Invocation<Expr>, input: Expr, bit_width: nat) -> bool {
    let args = invocation.arguments@;
    &&& invocation.id@ == bit_unpack_decl().id
    &&& args.len() == 2
    &&& args[0].id is None
    &&& args[0].rvalue == RValue::Expr(input)
    &&& args[1].id matches Some(id) && id@ == "bit_width"@
    &&& args[1].rvalue matches RValue::Numeric(text) && text@ == decimal(bit_width)
}

/// Writes an unpacking of bits. Its input has been written before.
pub fn ser_bit_unpack<Expr: Copy>(
    ast: &IntoAst<Expr>,
    inputs: &Vec<OutletId>,
    op: &BitUnpack,
) -> (r: Option<Invocation<Expr>>)
    requires
        inputs@.len() >= 1,
        mapped(ast.mapping@, inputs@[0]) is Some,
    ensures
        r matches Some(invocation) && writes(
            invocation,
            mapped(ast.mapping@, inputs@[0])->0,
            op.bit_width as nat,
        ),
        r matches Some(invocation) && ({
            let args = invocation.arguments@;
            &&& invocation.id@ == "tract_core_dyn_bit_unpack"@
            &&& args.len() == 2
            &&& args[0].id is None
            &&& args[0].rvalue == RValue::Expr(mapped(ast.mapping@, inputs@[0])->0)
            &&& args[1].id matches Some(id) && id@ == "bit_width"@
            &&& args[1].rvalue matches RValue::Numeric(text) && text@ == decimal(
                op.bit_width as nat,
            )
        }),
{
    match ast.expression(inputs[0]) {
        Some(input) => {
            let arguments = vec![
                Argument { id: None, rvalue: RValue::Expr(input) },
                Argument {
                    id: Some("bit_width".to_owned()),
                    rvalue: RValue::Numeric(to_decimal(op.bit_width)),
                },
            ];
            Some(Invocation { id: "tract_core_dyn_bit_unpack".to_owned(), arguments })
        },
        None => None,
    }
}

/// The argument is handed over under the name.
pub open spec fn has_name<Expr>(argument: Argument<Expr>, name: Seq<char>) -> bool {
    argument.id matches Some(id) && id@ == name
}

/// The first of the places, from `from` on, that has the property.
pub open spec fn first_from(has: spec_fn(int) -> bool, from: int, len: int) -> Option<int>
    decreases len - from,
{
    if from >= len {
        None
    } else if has(from) {
        Some(from)
    } else {
        first_from(has, from + 1, len)
    }
}

/// Which arguments are handed over under the name.
pub open spec fn named_at<Expr>(arguments: Seq<Argument<Expr>>, name: Seq<char>) -> spec_fn(
    int,
) -> bool {
    |i: int| has_name(arguments[i], name)
}

/// Which parameters have the name.
pub open spec fn declared_at(
    parameters: Seq<(Seq<char>, TypeSpec)>,
    name: Seq<char>,
) -> spec_fn(int) -> bool {
    |i: int| parameters[i].0 == name
}

/// The place of the argument for the parameter of the name: the first one handed over under
/// that name, or else the one at the place of the parameter, if it and all before it are
/// handed over by position.
pub open spec fn argument_place<Expr>(
    parameters: Seq<(Seq<char>, TypeSpec)>,
    arguments: Seq<Argument<Expr>>,
    name: Seq<char>,
) -> Option<int> {
    match first_from(named_at(arguments, name), 0, arguments.len() as int) {
        Some(i) => Some(i),
        None => match first_from(declared_at(parameters, name), 0, parameters.len() as int) {
            Some(ix) => if ix < arguments.len() && forall|i: int|
                0 <= i <= ix ==> (#[trigger] arguments[i]).id is None {
                Some(ix)
            } else {
                None
            },
            None => None,
        },
    }
}

/// The argument for the parameter of the name, if there is one.
pub fn get_named_arg<'a, Expr>(
    parameters: &Vec<Parameter>,
    arguments: &'a Vec<Argument<Expr>>,
    name: &str,
) -> (r: Option<&'a RValue<Expr>>)
    ensures
        match argument_place(parameter_views(parameters@), arguments@, name@) {
            Some(i) => r == Some(&arguments@[i].rvalue),
            None => r is None,
        },
{
    let ghost named = named_at(arguments@, name@);
    let ghost declared = declared_at(parameter_views(parameters@), name@);
    let mut i: usize = 0;
    while i < arguments.len()
        invariant
            i <= arguments@.len(),
            named == named_at(arguments@, name@),
            first_from(named, 0, arguments@.len() as int) == first_from(
                named,
                i as int,
                arguments@.len() as int,
            ),
        decreases arguments@.len() - i,
    {
        let here = match &arguments[i].id {
            Some(id) => same_text(id.as_str(), name),
            None => false,
        };
        assert(here == named(i as int));
        if here {
            return Some(&arguments[i].rvalue);
        }
        i += 1;
    }
    let mut ix: usize = 0;
    while ix < parameters.len()
        invariant
            ix <= parameters@.len(),
            named == named_at(arguments@, name@),
            declared == declared_at(parameter_views(parameters@), name@),
            first_from(named, 0, arguments@.len() as int) is None,
            first_from(declared, 0, parameters@.len() as int) == first_from(
                declared,
                ix as int,
                parameters@.len() as int,
            ),
        decreases parameters@.len() - ix,
    {
        let here = same_text(parameters[ix].id.as_str(), name);
        assert(here == declared(ix as int));
        if here {
            assert(first_from(declared, 0, parameters@.len() as int) == Some(ix as int));
            let n = arguments.len();
            if ix >= n {
                return None;
            }
            let mut k: usize = 0;
            while k <= ix
                invariant
                    k <= ix + 1,
                    ix < n == arguments@.len(),
                    named == named_at(arguments@, name@),
                    declared == declared_at(parameter_views(parameters@), name@),
                    first_from(named, 0, arguments@.len() as int) is None,
                    first_from(declared, 0, parameters@.len() as int) == Some(ix as int),
                    forall|j: int| 0 <= j < k ==> (#[trigger] arguments@[j]).id is None,
                decreases ix + 1 - k,
            {
                if arguments[k].id.is_some() {
                    assert(!(arguments@[k as int].id is None));
                    return None;
                }
                k += 1;
            }
            return Some(&arguments[ix].rvalue);
        }
        ix += 1;
    }
    None
}

/// An unpacking of bits, to be wired.
#[derive(Debug)]
pub struct WiredBitUnpack<Outlet> {
    pub op: BitUnpack,
    pub inputs: Vec<Outlet>,
}

/// Why an invocation cannot be read.
#[derive(Debug, Clone, Copy, PartialEq, Eq, Structural)]
pub enum ReadError<Error> {
    /// The argument for the input is missing.
    MissingInput,
    /// The argument for the width is missing.
    MissingBitWidth,
    /// An argument is not what it should be.
    Convert(Error),
}

/// What comes of reading the arguments, given what they are converted to.
pub open spec fn reads<Expr, Outlet, Error, ToWire, ToWidth>(
    parameters: Seq<(Seq<char>, TypeSpec)>,
    arguments: Seq<Argument<Expr>>,
    to_wire: ToWire,
    to_width: ToWidth,
    r: Result<WiredBitUnpack<Outlet>, ReadError<Error>>,
) -> bool where
    ToWire: FnOnce(&RValue<Expr>) -> Result<Outlet, Error>,
    ToWidth: FnOnce(&RValue<Expr>) -> Result<usize, Error>,
 {
    match argument_place(parameters, arguments, "input"@) {
        None => r is Err && r->Err_0 is MissingInput,
        Some(i) => exists|wire: Result<Outlet, Error>|
            #[trigger] call_ensures(to_wire, (&arguments[i].rvalue,), wire) && match wire {
                Err(e) => r is Err && r->Err_0 == ReadError::Convert(e),
                Ok(outlet) => match argument_place(parameters, arguments, "bit_width"@) {
                    None => r is Err && r->Err_0 is MissingBitWidth,
                    Some(j) => exists|width: Result<usize, Error>|
                        #[trigger] call_ensures(to_width, (&arguments[j].rvalue,), width)
                            && match width {
                            Err(e) => r is Err && r->Err_0 == ReadError::Convert(e),
                            Ok(bit_width) => r is Ok && r->Ok_0.op == (BitUnpack { bit_width })
                                && r->Ok_0.inputs@ == seq![outlet],
                        },
                },
            },
    }
}

/// Reads an unpacking of bits. `to_wire` converts an argument to an outlet, and `to_width`
/// converts one to a number; the input is converted first.
pub fn de_bit_unpack<Expr, Outlet, Error, ToWire, ToWidth>(
    parameters: &Vec<Parameter>,
    invocation: &Invocation<Expr>,
    to_wire: ToWire,
    to_width: ToWidth,
) -> (r: Result<WiredBitUnpack<Outlet>, ReadError<Error>>) where
    ToWire: FnOnce(&RValue<Expr>) -> Result<Outlet, Error>,
    ToWidth: FnOnce(&RValue<Expr>) -> Result<usize, Error>,

    requires
        forall|v: RValue<Expr>| #[trigger] call_requires(to_wire, (&v,)),
        forall|v: RValue<Expr>| #[trigger] call_requires(to_width, (&v,)),
    ensures
        reads(parameter_views(parameters@), invocation.arguments@, to_wire, to_width, r),
{
    let input = match get_named_arg(parameters, &invocation.arguments, "input") {
        Some(rvalue) => match to_wire(rvalue) {
            Ok(outlet) => outlet,
            Err(e) => return Err(ReadError::Convert(e)),
        },
        None => return Err(ReadError::MissingInput),
    };
    let bit_width = match get_named_arg(parameters, &invocation.arguments, "bit_width") {
        Some(rvalue) => match to_width(rvalue) {
            Ok(bit_width) => bit_width,
            Err(e) => return Err(ReadError::Convert(e)),
        },
        None => return Err(ReadError::MissingBitWidth),
    };
    let inputs = vec![input];
    assert(inputs@ =~= seq![input]);
    Ok(WiredBitUnpack { op: BitUnpack { bit_width }, inputs })
}

/// What was written is what is read: the argument for the input is the expression of the
/// input, and the argument for the width is the numeral of the width.
pub proof fn law_written_is_read<Expr>(
    invocation: Invocation<Expr>,
    input: Expr,
    bit_width: nat,
)
    requires
        writes(invocation, input, bit_width),
    ensures
        ({
            let args = invocation.arguments@;
            let parameters = bit_unpack_decl().parameters;
            &&& argument_place(parameters, args, "input"@) == Some(0int)
            &&& args[0].rvalue == RValue::Expr(input)
            &&& argument_place(parameters, args, "bit_width"@) == Some(1int)
            &&& args[1].rvalue matches RValue::Numeric(text) && numeral_value(text@) == Some(
                bit_width,
            )
        }),
{
    let args = invocation.arguments@;
    let parameters = bit_unpack_decl().parameters;
    lemma_decimal_roundtrip(bit_width);
    reveal_strlit("input");
    reveal_strlit("bit_width");
    assert("input"@.len() != "bit_width"@.len());
    reveal_with_fuel(first_from, 3);
    assert(argument_place(parameters, args, "input"@) == Some(0int)) by {
        let named = named_at(args, "input"@);
        assert(!named(0) && !named(1));
        assert(first_from(named, 0, 2) is None);
        let declared = declared_at(parameters, "input"@);
        assert(declared(0));
    }
    assert(argument_place(parameters, args, "bit_width"@) == Some(1int)) by {
        let named = named_at(args, "bit_width"@);
        assert(!named(0) && named(1));
        assert(first_from(named, 0, 2) == Some(1int));
    }
}

/// Reading what was written gives back the operator and its input, if the expression of the
/// input is converted to the input, and the numeral of the width to the width.
pub proof fn law_reading_gives_back_what_was_written<Expr, Outlet, Error, ToWire, ToWidth>(
    invocation: Invocation<Expr>,
    input: Expr,
    bit_width: usize,
    outlet: Outlet,
    to_wire: ToWire,
    to_width: ToWidth,
    r: Result<WiredBitUnpack<Outlet>, ReadError<Error>>,
) where
    ToWire: FnOnce(&RValue<Expr>) -> Result<Outlet, Error>,
    ToWidth: FnOnce(&RValue<Expr>) -> Result<usize, Error>,

    requires
        writes(invocation, input, bit_width as nat),
        reads(
            bit_unpack_decl().parameters,
            invocation.arguments@,
            to_wire,
            to_width,
            r,
        ),
        forall|wire: Result<Outlet, Error>| #[trigger]
            call_ensures(to_wire, (&RValue::Expr(input),), wire) ==> wire == Ok::<Outlet, Error>(
                outlet,
            ),
        forall|text: String, width: Result<usize, Error>| #[trigger]
            call_ensures(to_width, (&RValue::Numeric(text),), width) && text@ == decimal(
                bit_width as nat,
            ) ==> width == Ok::<usize, Error>(bit_width),
    ensures
        r is Ok,
        r->Ok_0.op == (BitUnpack { bit_width }),
        r->Ok_0.inputs@ == seq![outlet],
{
    law_written_is_read(invocation, input, bit_width as nat);
}

/// The first place that has the property is one that has it, and none before it does; where there
/// is no such place, none has it.
pub proof fn law_first_is_first(fits: spec_fn(int) -> bool, from: int, len: int, j: int)
    requires
        from <= j < len,
    ensures
        match first_from(fits, from, len) {
            Some(i) => from <= i < len && fits(i) && (j < i ==> !fits(j)),
            None => !fits(j),
        },
    decreases len - from,
{
    if !fits(from) && from < j {
        law_first_is_first(fits, from + 1, len, j);
    } else if !fits(from) && from + 1 < len {
        law_first_is_first(fits, from + 1, len, from + 1);
    }
}

/// An argument handed over under the name of the parameter is taken, and the first of several;
/// where there is none, the one at the place of the parameter is, but only if it and all before
/// it are handed over by position.
pub proof fn law_which_argument_is_taken<Expr>(
    parameters: Seq<(Seq<char>, TypeSpec)>,
    arguments: Seq<Argument<Expr>>,
    name: Seq<char>,
    n: int,
    p: int,
)
    requires
        0 <= p < parameters.len(),
        parameters[p].0 == name,
        forall|q: int| 0 <= q < p ==> (#[trigger] parameters[q]).0 != name,
    ensures
        0 <= n < arguments.len() && (arguments[n].id matches Some(id) && id@ == name) && (forall|m:
            int|
            0 <= m < n ==> !((#[trigger] arguments[m]).id matches Some(id) && id@ == name))
            ==> argument_place(parameters, arguments, name) == Some(n),
        (forall|m: int|
            0 <= m < arguments.len() ==> !((#[trigger] arguments[m]).id matches Some(id) && id@
                == name)) ==> argument_place(parameters, arguments, name) == (if p < arguments.len()
            && forall|m: int| 0 <= m <= p ==> (#[trigger] arguments[m]).id is None {
            Some(p)
        } else {
            None
        }),
{
    let named = named_at(arguments, name);
    let declared = declared_at(parameters, name);
    let len = arguments.len() as int;
    law_first_is_first(declared, 0, parameters.len() as int, p);
    match first_from(declared, 0, parameters.len() as int) {
        Some(q) => {
            if q < p {
                assert(parameters[q].0 != name);
            }
            assert(q == p);
        },
        None => {},
    }
    if 0 <= n < len && has_name(arguments[n], name) && (forall|m: int|
        0 <= m < n ==> !((#[trigger] arguments[m]).id matches Some(id) && id@ == name)) {
        assert(named(n));
        law_first_is_first(named, 0, len, n);
        match first_from(named, 0, len) {
            Some(i) => {
                if i < n {
                    assert(named(i));
                    assert(has_name(arguments[i], name));
                }
                assert(i == n);
            },
            None => {},
        }
    }
    if (forall|m: int|
        0 <= m < len ==> !((#[trigger] arguments[m]).id matches Some(id) && id@ == name)) {
        assert(first_from(named, 0, len) is None) by {
            if let Some(i) = first_from(named, 0, len) {
                if len > 0 {
                    law_first_is_first(named, 0, len, 0);
                }
                assert(named(i));
                assert(has_name(arguments[i], name));
            }
        }
        if p < len && (forall|m: int| 0 <= m <= p ==> (#[trigger] arguments[m]).id is None) {
            assert(argument_place(parameters, arguments, name) == Some(p));
        } else {
            assert(argument_place(parameters, arguments, name) is None);
        }
    }
}

/// What was registered, or written, last under a key is what is found under it, and nothing else
/// is touched.
pub proof fn law_last_counts<Expr>(
    dumpers: Seq<(OpType, Dumper)>,
    op: OpType,
    dumper: Dumper,
    other: OpType,
    mapping: Seq<(OutletId, Expr)>,
    outlet: OutletId,
    expr: Expr,
    elsewhere: OutletId,
)
    ensures
        last_dumper(dumpers.push((op, dumper)), op) == Some(dumper),
        other != op ==> last_dumper(dumpers.push((op, dumper)), other) == last_dumper(
            dumpers,
            other,
        ),
        last_dumper(Seq::empty(), op) is None,
        mapped(mapping.push((outlet, expr)), outlet) == Some(expr),
        elsewhere != outlet ==> mapped(mapping.push((outlet, expr)), elsewhere) == mapped(
            mapping,
            elsewhere,
        ),
        mapped(Seq::<(OutletId, Expr)>::empty(), outlet) is None,
{
    assert(dumpers.push((op, dumper)).drop_last() =~= dumpers);
    assert(mapping.push((outlet, expr)).drop_last() =~= mapping);
}

/// What comes of reading: a missing input is reported before anything else; what the input cannot
/// be converted to comes next; then a missing width; then what the width cannot be converted to;
/// and else the operator has the width, and reads the input alone.
pub proof fn law_reading_reports_in_order<Expr, Outlet, Error, ToWire, ToWidth>(
    parameters: Seq<(Seq<char>, TypeSpec)>,
    arguments: Seq<Argument<Expr>>,
    to_wire: ToWire,
    to_width: ToWidth,
    r: Result<WiredBitUnpack<Outlet>, ReadError<Error>>,
    wire: Result<Outlet, Error>,
    width: Result<usize, Error>,
) where
    ToWire: FnOnce(&RValue<Expr>) -> Result<Outlet, Error>,
    ToWidth: FnOnce(&RValue<Expr>) -> Result<usize, Error>,

    requires
        reads(parameters, arguments, to_wire, to_width, r),
        argument_place(parameters, arguments, "input"@) matches Some(i) ==> forall|w: Result<
            Outlet,
            Error,
        >| #[trigger] call_ensures(to_wire, (&arguments[i].rvalue,), w) ==> w == wire,
        argument_place(parameters, arguments, "bit_width"@) matches Some(j) ==> forall|w: Result<
            usize,
            Error,
        >| #[trigger] call_ensures(to_width, (&arguments[j].rvalue,), w) ==> w == width,
    ensures
        ({
            let input = argument_place(parameters, arguments, "input"@) is Some;
            let given = argument_place(parameters, arguments, "bit_width"@) is Some;
            &&& !input ==> r == Err::<WiredBitUnpack<Outlet>, ReadError<Error>>(
                ReadError::MissingInput,
            )
            &&& input && wire is Err ==> r == Err::<WiredBitUnpack<Outlet>, ReadError<Error>>(
                ReadError::Convert(wire->Err_0),
            )
            &&& input && wire is Ok && !given ==> r == Err::<
                WiredBitUnpack<Outlet>,
                ReadError<Error>,
            >(ReadError::MissingBitWidth)
            &&& input && wire is Ok && given && width is Err ==> r == Err::<
                WiredBitUnpack<Outlet>,
                ReadError<Error>,
            >(ReadError::Convert(width->Err_0))
            &&& input && wire is Ok && given && width is Ok ==> r is Ok && r->Ok_0.op.bit_width
                == width->Ok_0 && r->Ok_0.inputs@ == seq![wire->Ok_0]
        }),
{
}

/// The unpacking of bits is declared under its name, with a tensor and a width to take, and a
/// tensor to put out.
pub proof fn law_unpacking_is_declared()
    ensures
        bit_unpack_decl().id == "tract_core_dyn_bit_unpack"@,
        bit_unpack_decl().parameters.len() == 2,
        bit_unpack_decl().parameters[0].0 == "input"@,
        bit_unpack_decl().parameters[0].1 == TypeSpec::Tensor(TypeName::Scalar),
        bit_unpack_decl().parameters[1].0 == "bit_width"@,
        bit_unpack_decl().parameters[1].1 == TypeSpec::Single(TypeName::Integer),
        bit_unpack_decl().results.len() == 1,
        bit_unpack_decl().results[0].0 == "output"@,
        bit_unpack_decl().results[0].1 == TypeSpec::Tensor(TypeName::Scalar),
        bit_unpack_decl().to_tract == Loader::DeBitUnpack,
{
}

/// The primitive that was registered last under a name is found under it, as it was registered,
/// and no other is touched.
pub proof fn law_last_primitive_counts(
    primitives: Seq<PrimitiveDecl>,
    decl: PrimitiveDecl,
    id: Seq<char>,
    i: int,
)
    ensures
        last_primitive(primitives.push(decl), decl.id@) == Some(decl@),
        id != decl.id@ ==> last_primitive(primitives.push(decl), id) == last_primitive(
            primitives,
            id,
        ),
        last_primitive(Seq::empty(), id) is None,
        decl@.id == decl.id@,
        decl@.to_tract == decl.to_tract,
        decl@.parameters.len() == decl.parameters@.len(),
        decl@.results.len() == decl.results@.len(),
        0 <= i < decl.parameters@.len() ==> decl@.parameters[i] == (
            decl.parameters@[i].id@,
            decl.parameters@[i].spec,
        ),
        0 <= i < decl.results@.len() ==> decl@.results[i] == (
            decl.results@[i].id@,
            decl.results@[i].spec,
        ),
{
    assert(primitives.push(decl).drop_last() =~= primitives);
}

/// There is no argument for a parameter that is neither declared nor handed over by its name.
pub proof fn law_unknown_names_have_no_argument<Expr>(
    parameters: Seq<(Seq<char>, TypeSpec)>,
    arguments: Seq<Argument<Expr>>,
    name: Seq<char>,
)
    requires
        forall|p: int| 0 <= p < parameters.len() ==> (#[trigger] parameters[p]).0 != name,
        forall|m: int|
            0 <= m < arguments.len() ==> !((#[trigger] arguments[m]).id matches Some(id) && id@
                == name),
    ensures
        argument_place(parameters, arguments, name) is None,
{
    let named = named_at(arguments, name);
    let declared = declared_at(parameters, name);
    if arguments.len() > 0 {
        law_first_is_first(named, 0, arguments.len() as int, 0);
        if let Some(i) = first_from(named, 0, arguments.len() as int) {
            assert(named(i));
            assert(has_name(arguments[i], name));
        }
    }
    if parameters.len() > 0 {
        law_first_is_first(declared, 0, parameters.len() as int, 0);
        if let Some(i) = first_from(declared, 0, parameters.len() as int) {
            assert(declared(i));
            assert(parameters[i].0 == name);
        }
    }
}

} // verus!
