use serde_wasm_bindgen::de::{decode, Shape, VariantShape};
use serde_wasm_bindgen::records::{Color, LanguageCode, ObjType, Resize, ResultType};
use serde_wasm_bindgen::{from_value, to_value, Data, Error, HostValue, Num, Serializer};

fn s(x: &str) -> String {
    x.to_string()
}

fn dbg<T: std::fmt::Debug>(x: &T) -> String {
    format!("{:?}", x)
}

fn round_trip(ser: &Serializer, d: &Data, shape: &Shape) -> Data {
    let v = ser.serialize(d).expect("encodes");
    decode(&v, shape).expect("decodes")
}

fn point() -> Data {
    Data::Struct(vec![(s("x"), Data::I64(1)), (s("y"), Data::Str(s("up")))])
}

fn point_shape() -> Shape {
    Shape::Struct(vec![(s("x"), Shape::I64), (s("y"), Shape::Str)])
}

fn enum_shape() -> Shape {
    Shape::Enum(vec![
        (s("Unit"), VariantShape::Unit),
        (s("New"), VariantShape::Newtype(Box::new(Shape::U64))),
        (s("Pair"), VariantShape::Tuple(vec![Shape::Bool, Shape::Str])),
        (s("Rec"), VariantShape::Struct(vec![(s("a"), Shape::I64)])),
    ])
}

#[test]
fn round_trip_primitives() {
    let ser = Serializer::new();
    let cases = vec![
        (Data::Bool(true), Shape::Bool),
        (Data::I64(-42), Shape::I64),
        (Data::U64(7), Shape::U64),
        (Data::I128(-5), Shape::I128),
        (Data::U128(5), Shape::U128),
        (Data::Float(Num::Bits(0x3FF8_0000_0000_0000)), Shape::Float),
        (Data::Char('é'), Shape::Char),
        (Data::Str(s("hello")), Shape::Str),
        (Data::Bytes(vec![1, 2, 3]), Shape::Bytes),
        (Data::Unit, Shape::Unit),
    ];
    for (d, shape) in cases {
        assert_eq!(dbg(&round_trip(&ser, &d, &shape)), dbg(&d));
    }
}

#[test]
fn round_trip_struct_tuple_sequence_option() {
    let ser = Serializer::new();
    assert_eq!(dbg(&round_trip(&ser, &point(), &point_shape())), dbg(&point()));
    let tuple = Data::List(vec![Data::I64(1), Data::Str(s("two")), Data::Bool(false)]);
    let tuple_shape = Shape::Tuple(vec![Shape::I64, Shape::Str, Shape::Bool]);
    assert_eq!(dbg(&round_trip(&ser, &tuple, &tuple_shape)), dbg(&tuple));
    let seq = Data::List(vec![Data::U64(3), Data::U64(4)]);
    assert_eq!(dbg(&round_trip(&ser, &seq, &Shape::Sequence(Box::new(Shape::U64)))), dbg(&seq));
    let opt_shape = Shape::Optional(Box::new(Shape::Str));
    assert_eq!(dbg(&round_trip(&ser, &Data::Absent, &opt_shape)), dbg(&Data::Absent));
    let some = Data::Present(Box::new(Data::Str(s("x"))));
    assert_eq!(dbg(&round_trip(&ser, &some, &opt_shape)), dbg(&some));
}

#[test]
fn round_trip_external_enum() {
    let ser = Serializer::new();
    let values = vec![
        Data::UnitVariant(s("Unit")),
        Data::NewtypeVariant(s("New"), Box::new(Data::U64(9))),
        Data::TupleVariant(s("Pair"), vec![Data::Bool(true), Data::Str(s("p"))]),
        Data::StructVariant(s("Rec"), vec![(s("a"), Data::I64(-1))]),
    ];
    for d in values {
        assert_eq!(dbg(&round_trip(&ser, &d, &enum_shape())), dbg(&d));
    }
}

#[test]
fn round_trip_internal_adjacent_untagged_enum() {
    let ser = Serializer::new();
    // Internally tagged: the tag merged with the payload's fields.
    let internal = Data::Struct(vec![(s("type"), Data::Str(s("Rec"))), (s("a"), Data::I64(3))]);
    let internal_shape = Shape::Struct(vec![(s("type"), Shape::Str), (s("a"), Shape::I64)]);
    assert_eq!(dbg(&round_trip(&ser, &internal, &internal_shape)), dbg(&internal));
    // Adjacently tagged: tag and content side by side.
    let adjacent = Data::Struct(vec![(s("t"), Data::UnitVariant(s("New"))), (s("c"), Data::U64(5))]);
    let adjacent_shape = Shape::Struct(vec![
        (s("t"), Shape::Enum(vec![(s("New"), VariantShape::Unit)])),
        (s("c"), Shape::U64),
    ]);
    assert_eq!(dbg(&round_trip(&ser, &adjacent, &adjacent_shape)), dbg(&adjacent));
    // Untagged: the payload alone; the first variant that accepts it wins.
    let untagged = Data::List(vec![Data::Bool(true), Data::Str(s("p"))]);
    let untagged_shape = Shape::Untagged(vec![Shape::U64, Shape::Tuple(vec![Shape::Bool, Shape::Str])]);
    assert_eq!(dbg(&round_trip(&ser, &untagged, &untagged_shape)), dbg(&untagged));
}

#[test]
fn untagged_first_variant_wins() {
    let both = Shape::Untagged(vec![Shape::Str, Shape::Char]);
    let d = decode(&HostValue::Str(s("a")), &both).unwrap();
    assert_eq!(dbg(&d), dbg(&Data::Str(s("a"))));
    let chars_first = Shape::Untagged(vec![Shape::Char, Shape::Str]);
    let d = decode(&HostValue::Str(s("a")), &chars_first).unwrap();
    assert_eq!(dbg(&d), dbg(&Data::Char('a')));
    let d = decode(&HostValue::Str(s("ab")), &chars_first).unwrap();
    assert_eq!(dbg(&d), dbg(&Data::Str(s("ab"))));
    let none = Shape::Untagged(vec![Shape::Bool, Shape::U64]);
    assert_eq!(decode(&HostValue::Str(s("a")), &none).unwrap_err(), Error::NoVariantMatched);
}

#[test]
fn integer_boundary() {
    let ser = Serializer::new();
    let v = ser.serialize_i64(9007199254740991).unwrap();
    assert!(matches!(v, HostValue::Number(Num::Int(9007199254740991))));
    assert_eq!(ser.serialize_i64(9007199254740992).unwrap_err(), Error::UnrepresentableInteger);
    assert_eq!(ser.serialize_i64(-9007199254740992).unwrap_err(), Error::UnrepresentableInteger);
    assert_eq!(ser.serialize_u64(u64::MAX).unwrap_err(), Error::UnrepresentableInteger);
    let big = Serializer::new().serialize_large_number_types_as_bigints(true);
    assert!(matches!(big.serialize_i64(9007199254740992).unwrap(), HostValue::BigInt(false, 9007199254740992)));
    assert!(matches!(big.serialize_i64(i64::MIN).unwrap(), HostValue::BigInt(true, 9223372036854775808)));
    let min = Data::I128(i128::MIN);
    assert_eq!(dbg(&round_trip(&big, &min, &Shape::I128)), dbg(&min));
    let max = Data::U128(u128::MAX);
    assert_eq!(dbg(&round_trip(&big, &max, &Shape::U128)), dbg(&max));
}

#[test]
fn map_key_constraint() {
    let map = Data::Dict(vec![(Data::I64(1), Data::Str(s("one"))), (Data::I64(2), Data::Str(s("two")))]);
    let objects = Serializer::new().serialize_maps_as_objects(true);
    assert_eq!(objects.serialize(&map).unwrap_err(), Error::NonStringMapKey);
    let native = Serializer::new();
    let shape = Shape::Dict(Box::new(Shape::I64), Box::new(Shape::Str));
    assert_eq!(dbg(&round_trip(&native, &map, &shape)), dbg(&map));
    let named = Data::Dict(vec![(Data::Str(s("k")), Data::U64(1))]);
    let named_shape = Shape::Dict(Box::new(Shape::Str), Box::new(Shape::U64));
    let v = objects.serialize(&named).unwrap();
    assert!(matches!(&v, HostValue::Object(o) if o.len() == 1 && o[0].0 == "k"));
    assert_eq!(dbg(&decode(&v, &named_shape).unwrap()), dbg(&named));
}

#[test]
fn enum_shape_rejection() {
    let two = HostValue::Object(vec![
        (s("Unit"), HostValue::Undefined),
        (s("New"), HostValue::Number(Num::Int(1))),
    ]);
    assert_eq!(decode(&two, &enum_shape()).unwrap_err(), Error::InvalidLength(2));
    let none = HostValue::Object(vec![]);
    assert_eq!(decode(&none, &enum_shape()).unwrap_err(), Error::InvalidLength(0));
    let unit = decode(&HostValue::Str(s("Unit")), &enum_shape()).unwrap();
    assert_eq!(dbg(&unit), dbg(&Data::UnitVariant(s("Unit"))));
    assert_eq!(decode(&HostValue::Str(s("Nope")), &enum_shape()).unwrap_err(), Error::UnknownVariant);
    assert_eq!(decode(&HostValue::Str(s("New")), &enum_shape()).unwrap_err(), Error::TypeMismatch);
}

#[test]
fn struct_field_projection() {
    let obj = HostValue::Object(vec![
        (s("y"), HostValue::Str(s("up"))),
        (s("extra"), HostValue::Bool(true)),
        (s("x"), HostValue::Number(Num::Int(1))),
    ]);
    assert_eq!(dbg(&decode(&obj, &point_shape()).unwrap()), dbg(&point()));
    let arr = HostValue::Array(vec![HostValue::Number(Num::Int(1)), HostValue::Str(s("up"))]);
    assert_eq!(decode(&arr, &point_shape()).unwrap_err(), Error::TypeMismatch);
    let missing = HostValue::Object(vec![(s("x"), HostValue::Number(Num::Int(1)))]);
    assert_eq!(decode(&missing, &point_shape()).unwrap_err(), Error::TypeMismatch);
    let optional = Shape::Struct(vec![(s("x"), Shape::I64), (s("z"), Shape::Optional(Box::new(Shape::Str)))]);
    let d = decode(&missing, &optional).unwrap();
    assert_eq!(dbg(&d), dbg(&Data::Struct(vec![(s("x"), Data::I64(1)), (s("z"), Data::Absent)])));
}

#[test]
fn byte_buffer_isolation() {
    let ser = Serializer::new();
    let mut source = vec![1u8, 2, 3];
    let v = ser.serialize_bytes(&source);
    source[0] = 9;
    assert!(matches!(&v, HostValue::Bytes(b) if b == &vec![1u8, 2, 3]));
    let mut host = HostValue::Bytes(vec![4u8, 5]);
    let d = decode(&host, &Shape::Bytes).unwrap();
    if let HostValue::Bytes(b) = &mut host {
        b[0] = 0;
    }
    assert!(matches!(&d, Data::Bytes(b) if b == &vec![4u8, 5]));
}

#[test]
fn any_shape_inference() {
    let arr = HostValue::Array(vec![
        HostValue::Null,
        HostValue::Bool(true),
        HostValue::Number(Num::Int(3)),
        HostValue::Number(Num::Bits(0x3FF8_0000_0000_0000)),
        HostValue::Str(s("a")),
    ]);
    let d = from_value(arr, &Shape::Any).unwrap();
    let want = Data::List(vec![
        Data::Unit,
        Data::Bool(true),
        Data::I64(3),
        Data::Float(Num::Bits(0x3FF8_0000_0000_0000)),
        Data::Str(s("a")),
    ]);
    assert_eq!(dbg(&d), dbg(&want));
    let obj = HostValue::Object(vec![(s("k"), HostValue::Number(Num::Int(2)))]);
    let d = from_value(obj, &Shape::Any).unwrap();
    assert_eq!(dbg(&d), dbg(&Data::Dict(vec![(Data::Str(s("k")), Data::I64(2))])));
    let map = HostValue::NativeMap(vec![]);
    assert_eq!(from_value(map, &Shape::Any).unwrap_err(), Error::TypeMismatch);
    assert_eq!(dbg(&from_value(HostValue::Bool(false), &Shape::Ignore).unwrap()), dbg(&Data::Unit));
}

#[test]
fn sequence_and_map_sources() {
    let bytes = HostValue::Bytes(vec![7, 8]);
    let d = decode(&bytes, &Shape::Sequence(Box::new(Shape::U64))).unwrap();
    assert_eq!(dbg(&d), dbg(&Data::List(vec![Data::U64(7), Data::U64(8)])));
    let set = HostValue::Iterable(vec![HostValue::Str(s("a"))]);
    let d = decode(&set, &Shape::Sequence(Box::new(Shape::Str))).unwrap();
    assert_eq!(dbg(&d), dbg(&Data::List(vec![Data::Str(s("a"))])));
    let pairs = HostValue::Array(vec![HostValue::Array(vec![HostValue::Str(s("k")), HostValue::Number(Num::Int(1))])]);
    let shape = Shape::Dict(Box::new(Shape::Str), Box::new(Shape::I64));
    let d = decode(&pairs, &shape).unwrap();
    assert_eq!(dbg(&d), dbg(&Data::Dict(vec![(Data::Str(s("k")), Data::I64(1))])));
    let not_pairs = HostValue::Array(vec![HostValue::Str(s("k"))]);
    assert_eq!(decode(&not_pairs, &shape).unwrap_err(), Error::TypeMismatch);
    let short = HostValue::Array(vec![HostValue::Bool(true)]);
    assert_eq!(
        decode(&short, &Shape::Tuple(vec![Shape::Bool, Shape::Bool])).unwrap_err(),
        Error::InvalidLength(1)
    );
}

#[test]
fn integer_requests() {
    assert_eq!(decode(&HostValue::Number(Num::Int(-1)), &Shape::U64).unwrap_err(), Error::Overflow);
    assert_eq!(decode(&HostValue::Str(s("1")), &Shape::I64).unwrap_err(), Error::TypeMismatch);
    assert_eq!(decode(&HostValue::Number(Num::Bits(0x3FF8_0000_0000_0000)), &Shape::I64).unwrap_err(), Error::TypeMismatch);
    assert_eq!(decode(&HostValue::BigInt(false, 1u128 << 64), &Shape::U64).unwrap_err(), Error::Overflow);
    let d = decode(&HostValue::BigInt(true, 1u128 << 63), &Shape::I64).unwrap();
    assert_eq!(dbg(&d), dbg(&Data::I64(i64::MIN)));
    let d = decode(&HostValue::BigInt(false, 1u128 << 63), &Shape::U64).unwrap();
    assert_eq!(dbg(&d), dbg(&Data::U64(1u64 << 63)));
    assert_eq!(decode(&HostValue::Number(Num::Int(1)), &Shape::Bool).unwrap_err(), Error::TypeMismatch);
}

#[test]
fn chars_and_strings() {
    let ser = Serializer::new();
    let v = ser.serialize_char('😀');
    assert!(matches!(&v, HostValue::Str(t) if t == "😀"));
    assert_eq!(dbg(&decode(&v, &Shape::Char).unwrap()), dbg(&Data::Char('😀')));
    assert_eq!(decode(&HostValue::Str(s("ab")), &Shape::Char).unwrap_err(), Error::TypeMismatch);
    assert_eq!(decode(&HostValue::Str(s("")), &Shape::Char).unwrap_err(), Error::TypeMismatch);
}

#[test]
fn default_encoding_shapes() {
    let v = to_value(&Data::Absent).unwrap();
    assert!(matches!(v, HostValue::Undefined));
    let v = to_value(&Data::UnitVariant(s("Unit"))).unwrap();
    assert!(matches!(&v, HostValue::Str(t) if t == "Unit"));
    let v = to_value(&Data::NewtypeVariant(s("New"), Box::new(Data::U64(1)))).unwrap();
    assert!(matches!(&v, HostValue::Object(o) if o.len() == 1 && o[0].0 == "New"));
    let v = to_value(&Data::Dict(vec![(Data::Str(s("k")), Data::Unit)])).unwrap();
    assert!(matches!(&v, HostValue::NativeMap(m) if m.len() == 1));
    let nested = Data::List(vec![Data::I64(1), Data::U64(u64::MAX), Data::Dict(vec![(Data::Unit, Data::Unit)])]);
    let objects = Serializer::new().serialize_maps_as_objects(true);
    assert_eq!(objects.serialize(&nested).unwrap_err(), Error::UnrepresentableInteger);
}

#[test]
fn custom_error_message() {
    match Error::new("bad field") {
        Error::Custom(m) => assert_eq!(m, "bad field"),
        other => panic!("unexpected {:?}", other),
    }
}

#[test]
fn record_helpers() {
    assert_eq!(Color(0xA0A0A0).hex_digits(), b"A0A0A0".to_vec());
    assert_eq!(Color(0x12AB0F).hex_digits(), b"12AB0F".to_vec());
    assert_eq!(LanguageCode::Cn.tag(), "zh-cn");
    assert_eq!(Resize::Crop.tag(), "crop");
    assert_eq!(ResultType::Recent.tag(), "recent");
    assert_eq!(ObjType::Polygon.tag(), "Polygon");
}


#[test]
fn big_integer_mode_covers_every_wide_value() {
    let big = Serializer::new().serialize_large_number_types_as_bigints(true);
    assert!(matches!(big.serialize_i64(0).unwrap(), HostValue::BigInt(false, 0)));
    assert!(matches!(big.serialize_i64(-5).unwrap(), HostValue::BigInt(true, 5)));
    assert!(matches!(big.serialize_u64(7).unwrap(), HostValue::BigInt(false, 7)));
    assert!(matches!(big.serialize_i128(9007199254740991).unwrap(), HostValue::BigInt(false, 9007199254740991)));
    assert!(matches!(big.serialize_u128(0).unwrap(), HostValue::BigInt(false, 0)));
    assert!(matches!(big.serialize_i32(-3), HostValue::Number(Num::Int(-3))));
    assert!(matches!(big.serialize_u32(u32::MAX), HostValue::Number(Num::Int(4294967295))));
    let small = Data::I64(7);
    assert_eq!(dbg(&round_trip(&big, &small, &Shape::I64)), dbg(&small));
    let narrow = Data::I32(-7);
    assert!(matches!(big.serialize(&narrow).unwrap(), HostValue::Number(Num::Int(-7))));
    assert_eq!(dbg(&round_trip(&big, &narrow, &Shape::I32)), dbg(&narrow));
}

#[test]
fn narrow_integer_requests() {
    assert_eq!(dbg(&decode(&HostValue::Number(Num::Int(70000)), &Shape::I32).unwrap()), dbg(&Data::I32(70000)));
    assert_eq!(decode(&HostValue::Number(Num::Int(1 << 31)), &Shape::I32).unwrap_err(), Error::Overflow);
    assert_eq!(decode(&HostValue::Number(Num::Int(-1)), &Shape::U32).unwrap_err(), Error::Overflow);
    assert_eq!(dbg(&decode(&HostValue::BigInt(false, 12), &Shape::U32).unwrap()), dbg(&Data::U32(12)));
}

#[test]
fn native_map_read_as_sequence() {
    let map = HostValue::NativeMap(vec![
        HostValue::Array(vec![HostValue::Str(s("a")), HostValue::Number(Num::Int(1))]),
        HostValue::Array(vec![HostValue::Str(s("b")), HostValue::Number(Num::Int(2))]),
    ]);
    let shape = Shape::Sequence(Box::new(Shape::Tuple(vec![Shape::Str, Shape::I64])));
    let d = decode(&map, &shape).unwrap();
    let want = Data::List(vec![
        Data::List(vec![Data::Str(s("a")), Data::I64(1)]),
        Data::List(vec![Data::Str(s("b")), Data::I64(2)]),
    ]);
    assert_eq!(dbg(&d), dbg(&want));
    let as_map = decode(&map, &Shape::Dict(Box::new(Shape::Str), Box::new(Shape::I64))).unwrap();
    let want = Data::Dict(vec![(Data::Str(s("a")), Data::I64(1)), (Data::Str(s("b")), Data::I64(2))]);
    assert_eq!(dbg(&as_map), dbg(&want));
}

#[test]
fn byte_buffer_read_as_map() {
    let shape = Shape::Dict(Box::new(Shape::Str), Box::new(Shape::I64));
    assert_eq!(dbg(&decode(&HostValue::Bytes(vec![]), &shape).unwrap()), dbg(&Data::Dict(vec![])));
    assert_eq!(decode(&HostValue::Bytes(vec![1]), &shape).unwrap_err(), Error::TypeMismatch);
}

#[test]
fn other_host_values() {
    assert_eq!(decode(&HostValue::Other, &Shape::Any).unwrap_err(), Error::TypeMismatch);
    assert_eq!(dbg(&decode(&HostValue::Other, &Shape::Ignore).unwrap()), dbg(&Data::Unit));
    let obj = HostValue::Object(vec![
        (s("x"), HostValue::Number(Num::Int(1))),
        (s("handler"), HostValue::Other),
        (s("y"), HostValue::Str(s("up"))),
    ]);
    assert_eq!(dbg(&decode(&obj, &point_shape()).unwrap()), dbg(&point()));
}
