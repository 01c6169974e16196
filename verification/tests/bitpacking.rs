use tract_metal::bitpacking::{
    de_bit_unpack, get_named_arg, register, ser_bit_unpack, Argument, BitUnpack, Dumper, IntoAst,
    Invocation, Loader, OpType, PrimitiveDecl, RValue, ReadError, Registry, TypeName, TypeSpec,
};
use tract_metal::model::OutletId;

const ID: &str = "tract_core_dyn_bit_unpack";

fn registry() -> Registry {
    let mut r = Registry { dumpers: vec![], primitives: vec![] };
    register(&mut r);
    r
}

fn outlet(node: usize) -> OutletId {
    OutletId { node, slot: 0 }
}

fn to_wire(v: &RValue<&'static str>) -> Result<usize, String> {
    match v {
        RValue::Expr(e) => Ok(e.len()),
        RValue::Numeric(n) => Err(format!("{n} is no wire")),
    }
}

fn to_width(v: &RValue<&'static str>) -> Result<usize, String> {
    match v {
        RValue::Expr(e) => Err(format!("{e} is no number")),
        RValue::Numeric(n) => n.parse().map_err(|_| format!("{n} is no number")),
    }
}

fn read(args: Vec<Argument<&'static str>>) -> Result<(usize, Vec<usize>), ReadError<String>> {
    let r = registry();
    let invocation = Invocation { id: ID.to_string(), arguments: args };
    de_bit_unpack(&r.primitive(ID).unwrap().parameters, &invocation, to_wire, to_width)
        .map(|w| (w.op.bit_width, w.inputs))
}

fn arg(id: Option<&str>, rvalue: RValue<&'static str>) -> Argument<&'static str> {
    Argument { id: id.map(|i| i.to_string()), rvalue }
}

#[test]
fn unpacking_is_registered() {
    let r = registry();
    assert_eq!(r.dumper(OpType::BitUnpack), Some(Dumper::SerBitUnpack));
    assert_eq!(r.dumper(OpType::Other(1)), None);
    let decl = r.primitive(ID).unwrap();
    assert_eq!(decl.to_tract, Loader::DeBitUnpack);
    let parameters: Vec<_> = decl.parameters.iter().map(|p| (p.id.as_str(), p.spec)).collect();
    assert_eq!(
        parameters,
        [
            ("input", TypeSpec::Tensor(TypeName::Scalar)),
            ("bit_width", TypeSpec::Single(TypeName::Integer))
        ]
    );
    assert_eq!(decl.results.len(), 1);
    assert_eq!(decl.results[0].id, "output");
    assert_eq!(decl.results[0].spec, TypeSpec::Tensor(TypeName::Scalar));
    assert!(r.primitive("other").is_none());
}

#[test]
fn other_registrations_stay() {
    let mut r = Registry { dumpers: vec![(OpType::Other(3), Dumper::Other(4))], primitives: vec![] };
    let decl = |id: &str, n| PrimitiveDecl {
        id: id.to_string(),
        parameters: vec![],
        results: vec![],
        to_tract: Loader::Other(n),
    };
    r.register_primitive(decl("mine", 1));
    r.register_primitive(decl(ID, 2));
    register(&mut r);
    assert_eq!(r.dumper(OpType::Other(3)), Some(Dumper::Other(4)));
    assert_eq!(r.primitive("mine").unwrap().to_tract, Loader::Other(1));
    assert_eq!(r.primitive(ID).unwrap().to_tract, Loader::DeBitUnpack);
}

#[test]
fn written_is_read() {
    let ast = IntoAst { mapping: vec![(outlet(1), "other"), (outlet(4), "packed")] };
    for bit_width in [0, 1, 4, 10, 127, 1000000007] {
        let op = BitUnpack { bit_width };
        let invocation = ser_bit_unpack(&ast, &vec![outlet(4)], &op).unwrap();
        assert_eq!(invocation.id, ID);
        assert_eq!(invocation.arguments[1].id.as_deref(), Some("bit_width"));
        assert_eq!(read(invocation.arguments), Ok((bit_width, vec!["packed".len()])));
    }
}

#[test]
fn arguments_by_name_and_by_position() {
    let width = || RValue::Numeric("8".to_string());
    let named = vec![arg(Some("bit_width"), width()), arg(Some("input"), RValue::Expr("abc"))];
    assert_eq!(read(named), Ok((8, vec![3])));
    let positional = vec![arg(None, RValue::Expr("abc")), arg(None, width())];
    assert_eq!(read(positional), Ok((8, vec![3])));
    // Behind a named argument nothing goes by position.
    let mixed = vec![arg(Some("input"), RValue::Expr("abc")), arg(None, width())];
    assert_eq!(read(mixed), Err(ReadError::MissingBitWidth));
    assert_eq!(read(vec![]), Err(ReadError::MissingInput));
    assert_eq!(read(vec![arg(None, RValue::Expr("abc"))]), Err(ReadError::MissingBitWidth));
    assert_eq!(
        read(vec![arg(None, width()), arg(None, width())]),
        Err(ReadError::Convert("8 is no wire".to_string()))
    );
    assert_eq!(
        read(vec![arg(None, RValue::Expr("abc")), arg(None, RValue::Expr("d"))]),
        Err(ReadError::Convert("d is no number".to_string()))
    );
    let r = registry();
    let parameters = &r.primitive(ID).unwrap().parameters;
    assert!(get_named_arg(parameters, &vec![arg(None, width())], "unknown").is_none());
}
