use serde_wasm_bindgen::de::{
    any_request, enum_request, map_request, sequence_request, struct_request, Deserializer, Inferred, Shape,
};
use serde_wasm_bindgen::value::Kind;
use serde_wasm_bindgen::{Error, HostValue, Num};

fn s(x: &str) -> String {
    x.to_string()
}

fn dbg<T: std::fmt::Debug>(x: &T) -> String {
    format!("{:?}", x)
}

#[test]
fn sequence_request_sources() {
    let items = sequence_request(HostValue::Bytes(vec![1, 255])).unwrap();
    assert_eq!(dbg(&items), dbg(&vec![HostValue::Number(Num::Int(1)), HostValue::Number(Num::Int(255))]));
    let items = sequence_request(HostValue::Iterable(vec![HostValue::Null])).unwrap();
    assert_eq!(items.len(), 1);
    assert_eq!(sequence_request(HostValue::Str(s("ab"))).unwrap_err(), Error::TypeMismatch);
    assert_eq!(sequence_request(HostValue::Object(vec![])).unwrap_err(), Error::TypeMismatch);
}

#[test]
fn map_request_sources() {
    let obj = HostValue::Object(vec![(s("a"), HostValue::Bool(true)), (s("b"), HostValue::Null)]);
    let entries = map_request(obj).unwrap();
    assert_eq!(
        dbg(&entries),
        dbg(&vec![(HostValue::Str(s("a")), HostValue::Bool(true)), (HostValue::Str(s("b")), HostValue::Null)])
    );
    let pairs = HostValue::Iterable(vec![
        HostValue::Array(vec![HostValue::Number(Num::Int(1)), HostValue::Str(s("one"))]),
        HostValue::Array(vec![HostValue::Number(Num::Int(2))]),
    ]);
    let entries = map_request(pairs).unwrap();
    assert_eq!(
        dbg(&entries),
        dbg(&vec![
            (HostValue::Number(Num::Int(1)), HostValue::Str(s("one"))),
            (HostValue::Number(Num::Int(2)), HostValue::Undefined),
        ])
    );
    let bad = HostValue::Array(vec![HostValue::Bool(false)]);
    assert_eq!(map_request(bad).unwrap_err(), Error::TypeMismatch);
    assert_eq!(map_request(HostValue::Bytes(vec![1])).unwrap_err(), Error::TypeMismatch);
}

#[test]
fn struct_request_fields() {
    let obj = HostValue::Object(vec![
        (s("b"), HostValue::Number(Num::Int(2))),
        (s("zzz"), HostValue::Bool(true)),
        (s("a"), HostValue::Number(Num::Int(1))),
    ]);
    let values = struct_request(obj, &vec![s("a"), s("b"), s("c")]).unwrap();
    assert_eq!(
        dbg(&values),
        dbg(&vec![HostValue::Number(Num::Int(1)), HostValue::Number(Num::Int(2)), HostValue::Undefined])
    );
    let arr = HostValue::Array(vec![]);
    assert_eq!(struct_request(arr, &vec![s("a")]).unwrap_err(), Error::TypeMismatch);
}

#[test]
fn enum_request_forms() {
    let (tag, payload) = enum_request(HostValue::Str(s("Unit"))).unwrap();
    assert_eq!(tag, "Unit");
    assert!(matches!(payload, HostValue::Undefined));
    let (tag, payload) = enum_request(HostValue::Object(vec![(s("New"), HostValue::Bool(true))])).unwrap();
    assert_eq!(tag, "New");
    assert!(matches!(payload, HostValue::Bool(true)));
    let two = HostValue::Object(vec![(s("A"), HostValue::Null), (s("B"), HostValue::Null)]);
    assert_eq!(enum_request(two).unwrap_err(), Error::InvalidLength(2));
    assert_eq!(enum_request(HostValue::Bool(true)).unwrap_err(), Error::TypeMismatch);
}

#[test]
fn any_request_inference() {
    assert!(matches!(any_request(HostValue::Undefined).unwrap(), Inferred::Unit));
    assert!(matches!(any_request(HostValue::Number(Num::Int(-4))).unwrap(), Inferred::Int(-4)));
    let unsafe_int = HostValue::Number(Num::Int(9007199254740992));
    assert!(matches!(any_request(unsafe_int).unwrap(), Inferred::Float(Num::Int(9007199254740992))));
    assert!(matches!(any_request(HostValue::Array(vec![])).unwrap(), Inferred::Elements(_)));
    assert!(matches!(any_request(HostValue::Object(vec![])).unwrap(), Inferred::Properties(_)));
    assert_eq!(any_request(HostValue::BigInt(false, 1)).unwrap_err(), Error::TypeMismatch);
    assert_eq!(any_request(HostValue::Iterable(vec![])).unwrap_err(), Error::TypeMismatch);
}

#[test]
fn deserializer_wraps_a_value() {
    let d = Deserializer::from(HostValue::Str(s("x")));
    assert!(matches!(d.deserialize(&Shape::Str), Ok(serde_wasm_bindgen::Data::Str(ref t)) if t == "x"));
    assert_eq!(d.deserialize(&Shape::Bool).unwrap_err(), Error::TypeMismatch);
}

#[test]
fn struct_request_repeated_names() {
    let obj = HostValue::Object(vec![(s("a"), HostValue::Str(s("v")))]);
    let values = struct_request(obj, &vec![s("a"), s("a")]).unwrap();
    assert_eq!(dbg(&values), dbg(&vec![HostValue::Str(s("v")), HostValue::Str(s("v"))]));
}

#[test]
fn map_and_sequence_requests_on_maps_and_bytes() {
    assert_eq!(map_request(HostValue::Bytes(vec![])).unwrap().len(), 0);
    assert_eq!(map_request(HostValue::Bytes(vec![3])).unwrap_err(), Error::TypeMismatch);
    let map = HostValue::NativeMap(vec![HostValue::Array(vec![HostValue::Bool(true), HostValue::Null])]);
    let entries = map_request(map).unwrap();
    assert_eq!(dbg(&entries), dbg(&vec![(HostValue::Bool(true), HostValue::Null)]));
    let map = HostValue::NativeMap(vec![HostValue::Array(vec![HostValue::Bool(true), HostValue::Null])]);
    let items = sequence_request(map).unwrap();
    assert_eq!(dbg(&items), dbg(&vec![HostValue::Array(vec![HostValue::Bool(true), HostValue::Null])]));
}

#[test]
fn observed_kinds() {
    assert_eq!(HostValue::Null.kind(), Kind::Unit);
    assert_eq!(HostValue::Number(Num::Int(1)).kind(), Kind::Number);
    assert_eq!(HostValue::BigInt(false, 1).kind(), Kind::BigInt);
    assert_eq!(HostValue::Bytes(vec![]).kind(), Kind::Bytes);
    assert_eq!(HostValue::NativeMap(vec![]).kind(), Kind::Iterable);
    assert_eq!(HostValue::Object(vec![]).kind(), Kind::Object);
    assert_eq!(HostValue::Other.kind(), Kind::Other);
}

#[test]
fn duplicate_is_deep() {
    let v = HostValue::Object(vec![(s("k"), HostValue::Array(vec![HostValue::Bytes(vec![1, 2])]))]);
    let copy = v.duplicate();
    assert_eq!(dbg(&copy), dbg(&v));
}
