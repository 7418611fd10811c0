//! The decoder: answers a consumer's requests against a dynamic host value.
use vstd::prelude::*;
use crate::error::Error;
use crate::value::{Data, HostValue, Num, MAX_SAFE_INTEGER, is_safe_int, big_value, same};
use vstd::string::StrSliceExecFns;

verus! {

/// The shape a consumer requests of a dynamic value.
#[derive(Debug)]
pub enum Shape {
    /// Anything: the decoder infers the shape from the value.
    Any,
    /// The value is skipped without being inspected.
    Ignore,
    Unit,
    Bool,
    /// A 32-bit or narrower signed integer.
    I32,
    /// A 32-bit or narrower unsigned integer.
    U32,
    I64,
    U64,
    I128,
    U128,
    Float,
    Str,
    Char,
    Bytes,
    Optional(Box<Shape>),
    /// A sequence of any length whose elements all have one shape.
    Sequence(Box<Shape>),
    /// A tuple or tuple struct: one shape per position.
    Tuple(Vec<Shape>),
    /// A map with the given key and value shapes.
    Dict(Box<Shape>, Box<Shape>),
    /// A struct with a fixed, ordered list of field names.
    Struct(Vec<(String, Shape)>),
    /// An enum: its variants by name.
    Enum(Vec<(String, VariantShape)>),
    /// An enum whose values carry no tag: the payload shapes of its
    /// variants in declaration order. The first variant that accepts the
    /// value wins, even where a later one would accept it too.
    Untagged(Vec<Shape>),
}

/// The payload shape of one enum variant.
#[derive(Debug)]
pub enum VariantShape {
    Unit,
    Newtype(Box<Shape>),
    Tuple(Vec<Shape>),
    Struct(Vec<(String, Shape)>),
}

/// The elements a sequence request reads from `v`: those of an array or of
/// another iterable (a native map yields its `[key, value]` entries), or
/// the bytes of a byte buffer as numbers.
pub open spec fn seq_items(v: HostValue) -> Option<Seq<HostValue>> {
    match v {
        HostValue::Array(a) => Some(a@),
        HostValue::Iterable(a) => Some(a@),
        HostValue::NativeMap(m) => Some(m@),
        HostValue::Bytes(b) => Some(b@.map_values(|x: u8| HostValue::Number(Num::Int(x as i64)))),
        _ => None,
    }
}

/// Slot `i` of a pair read from an iterable: the array's element, or
/// `undefined` where the array is shorter.
pub open spec fn slot(p: Seq<HostValue>, i: int) -> HostValue {
    if i < p.len() {
        p[i]
    } else {
        HostValue::Undefined
    }
}

/// The value of the first property named `name`, if any.
pub open spec fn lookup(o: Seq<(String, HostValue)>, name: Seq<char>) -> Option<HostValue>
    decreases o.len(),
{
    if o.len() == 0 {
        None
    } else if o[0].0@ == name {
        Some(o[0].1)
    } else {
        lookup(o.drop_first(), name)
    }
}

/// What a struct request reads for the field `name`: the property's value,
/// or `undefined` where the object lacks it.
pub open spec fn field_value(o: Seq<(String, HostValue)>, name: Seq<char>) -> HostValue {
    match lookup(o, name) {
        Some(v) => v,
        None => HostValue::Undefined,
    }
}

/// The position of the first variant named `tag`, or -1 where none is.
pub open spec fn variant_index(vs: Seq<(String, VariantShape)>, tag: Seq<char>) -> int
    decreases vs.len(),
{
    if vs.len() == 0 {
        -1
    } else if vs[0].0@ == tag {
        0
    } else {
        let i = variant_index(vs.drop_first(), tag);
        if i < 0 {
            -1
        } else {
            i + 1
        }
    }
}

/// The integer a request for an integer in `[lo, hi]` reads from `v`.
pub open spec fn int_request(v: HostValue, lo: int, hi: int) -> Result<int, Error> {
    match v {
        HostValue::Number(Num::Int(n)) => if !is_safe_int(n as int) {
            Err(Error::TypeMismatch)
        } else if lo <= n <= hi {
            Ok(n as int)
        } else {
            Err(Error::Overflow)
        },
        HostValue::BigInt(neg, mag) => if lo <= big_value(neg, mag) <= hi {
            Ok(big_value(neg, mag))
        } else {
            Err(Error::Overflow)
        },
        _ => Err(Error::TypeMismatch),
    }
}

/// The error of an integer request, if any.
pub open spec fn int_err(v: HostValue, lo: int, hi: int) -> Option<Error> {
    match int_request(v, lo, hi) {
        Ok(_) => None,
        Err(e) => Some(e),
    }
}

/// The first error met when decoding `v` as `s`; `None` when it decodes.
pub open spec fn dec_err(v: HostValue, s: Shape) -> Option<Error>
    decreases s, v,
{
    match s {
        Shape::Ignore => None,
        Shape::Any => match v {
            HostValue::Undefined | HostValue::Null | HostValue::Bool(_) | HostValue::Number(_) | HostValue::Str(_) => None,
            HostValue::Array(a) => items_err(a@, s),
            HostValue::Object(o) => props_err(o@, s),
            _ => Some(Error::TypeMismatch),
        },
        Shape::Unit => if v is Undefined || v is Null { None } else { Some(Error::TypeMismatch) },
        Shape::Bool => if v is Bool { None } else { Some(Error::TypeMismatch) },
        Shape::I32 => int_err(v, i32::MIN as int, i32::MAX as int),
        Shape::U32 => int_err(v, 0, u32::MAX as int),
        Shape::I64 => int_err(v, i64::MIN as int, i64::MAX as int),
        Shape::U64 => int_err(v, 0, u64::MAX as int),
        Shape::I128 => int_err(v, i128::MIN as int, i128::MAX as int),
        Shape::U128 => int_err(v, 0, u128::MAX as int),
        Shape::Float => if v is Number { None } else { Some(Error::TypeMismatch) },
        Shape::Str => if v is Str { None } else { Some(Error::TypeMismatch) },
        Shape::Char => match char_request(v) {
            Ok(_) => None,
            Err(e) => Some(e),
        },
        Shape::Bytes => if v is Bytes { None } else { Some(Error::TypeMismatch) },
        Shape::Optional(inner) => if v is Undefined || v is Null { None } else { dec_err(v, *inner) },
        Shape::Sequence(elem) => match seq_items(v) {
            Some(items) => items_err(items, *elem),
            None => Some(Error::TypeMismatch),
        },
        Shape::Tuple(ss) => match seq_items(v) {
            Some(items) => if items.len() < ss@.len() {
                Some(Error::InvalidLength(items.len() as usize))
            } else {
                positions_err(items, ss@)
            },
            None => Some(Error::TypeMismatch),
        },
        Shape::Dict(_, _) => match v {
            HostValue::Array(a) => item_pairs_err(a@, s),
            HostValue::Iterable(a) => item_pairs_err(a@, s),
            HostValue::NativeMap(a) => item_pairs_err(a@, s),
            HostValue::Bytes(b) => if b@.len() == 0 {
                None
            } else {
                Some(Error::TypeMismatch)
            },
            HostValue::Object(o) => props_err(o@, s),
            _ => Some(Error::TypeMismatch),
        },
        Shape::Struct(fs) => match v {
            HostValue::Object(o) => fields_err(o@, fs@),
            _ => Some(Error::TypeMismatch),
        },
        Shape::Enum(vs) => match v {
            HostValue::Str(tag) => {
                let i = variant_index(vs@, tag@);
                if !(0 <= i < vs@.len()) {
                    Some(Error::UnknownVariant)
                } else if vs@[i].1 is Unit {
                    None
                } else {
                    Some(Error::TypeMismatch)
                }
            },
            HostValue::Object(o) => if o@.len() != 1 {
                Some(Error::InvalidLength(o@.len() as usize))
            } else {
                let i = variant_index(vs@, o@[0].0@);
                if !(0 <= i < vs@.len()) {
                    Some(Error::UnknownVariant)
                } else {
                    variant_err(o@[0].1, vs@[i].1)
                }
            },
            _ => Some(Error::TypeMismatch),
        },
        Shape::Untagged(ss) => {
            let i = untagged_index(v, ss@);
            if 0 <= i < ss@.len() {
                None
            } else {
                Some(Error::NoVariantMatched)
            }
        },
    }
}

/// The position of the first of the shapes `ss` that `v` decodes as, or -1
/// where none does.
pub open spec fn untagged_index(v: HostValue, ss: Seq<Shape>) -> int
    decreases ss, v,
{
    if ss.len() == 0 {
        -1
    } else if dec_err(v, ss[0]) is None {
        0
    } else {
        let i = untagged_index(v, ss.drop_first());
        if i < 0 {
            -1
        } else {
            i + 1
        }
    }
}

/// The first error met when decoding each of `items` as `s`, in order.
pub open spec fn items_err(items: Seq<HostValue>, s: Shape) -> Option<Error>
    decreases s, items,
{
    if items.len() == 0 {
        None
    } else if dec_err(items[0], s) is Some {
        dec_err(items[0], s)
    } else {
        items_err(items.drop_first(), s)
    }
}

/// The first error met when decoding `items[i]` as `ss[i]` for each `i` of `ss`.
pub open spec fn positions_err(items: Seq<HostValue>, ss: Seq<Shape>) -> Option<Error>
    decreases ss, items,
{
    if ss.len() == 0 || items.len() == 0 {
        None
    } else if dec_err(items[0], ss[0]) is Some {
        dec_err(items[0], ss[0])
    } else {
        positions_err(items.drop_first(), ss.drop_first())
    }
}

/// The key shape of a map request; a value inferred as a map has string keys.
pub open spec fn key_shape(s: Shape) -> Shape {
    match s {
        Shape::Dict(k, _) => *k,
        _ => Shape::Str,
    }
}

/// The value shape of a map request, or `Any` for a value inferred as a map.
pub open spec fn value_shape(s: Shape) -> Shape {
    match s {
        Shape::Dict(_, v) => *v,
        _ => Shape::Any,
    }
}

/// The first error met when decoding the items of an iterable as key/value
/// pairs under the map request `s`: each item must be an array.
pub open spec fn item_pairs_err(items: Seq<HostValue>, s: Shape) -> Option<Error>
    decreases s, items,
{
    if items.len() == 0 || !(s is Dict) {
        None
    } else if !(items[0] is Array) {
        Some(Error::TypeMismatch)
    } else if dec_err(slot(items[0]->Array_0@, 0), key_shape(s)) is Some {
        dec_err(slot(items[0]->Array_0@, 0), key_shape(s))
    } else if dec_err(slot(items[0]->Array_0@, 1), value_shape(s)) is Some {
        dec_err(slot(items[0]->Array_0@, 1), value_shape(s))
    } else {
        item_pairs_err(items.drop_first(), s)
    }
}

/// The first error met when decoding the properties of a plain object as
/// map entries under the map request `s`, or with inferred shapes where `s`
/// is `Any`.
pub open spec fn props_err(o: Seq<(String, HostValue)>, s: Shape) -> Option<Error>
    decreases s, o,
{
    if o.len() == 0 || !(s is Dict || s is Any) {
        None
    } else if s is Dict && dec_err(HostValue::Str(o[0].0), key_shape(s)) is Some {
        dec_err(HostValue::Str(o[0].0), key_shape(s))
    } else if dec_err(o[0].1, value_shape(s)) is Some {
        dec_err(o[0].1, value_shape(s))
    } else {
        props_err(o.drop_first(), s)
    }
}

/// The first error met when decoding each named field of `fs` from the
/// object `o`, in the order of `fs`.
pub open spec fn fields_err(o: Seq<(String, HostValue)>, fs: Seq<(String, Shape)>) -> Option<Error>
    decreases fs, o,
{
    if fs.len() == 0 {
        None
    } else if dec_err(field_value(o, fs[0].0@), fs[0].1) is Some {
        dec_err(field_value(o, fs[0].0@), fs[0].1)
    } else {
        fields_err(o, fs.drop_first())
    }
}

/// The error of decoding an enum payload `p` for a variant of shape `vs`.
pub open spec fn variant_err(p: HostValue, vs: VariantShape) -> Option<Error>
    decreases vs, p,
{
    match vs {
        VariantShape::Unit => if p is Undefined || p is Null { None } else { Some(Error::TypeMismatch) },
        VariantShape::Newtype(s) => dec_err(p, *s),
        VariantShape::Tuple(ss) => match seq_items(p) {
            Some(items) => if items.len() < ss@.len() {
                Some(Error::InvalidLength(items.len() as usize))
            } else {
                positions_err(items, ss@)
            },
            None => Some(Error::TypeMismatch),
        },
        VariantShape::Struct(fs) => match p {
            HostValue::Object(o) => fields_err(o@, fs@),
            _ => Some(Error::TypeMismatch),
        },
    }
}

/// `d` is what decoding `v` as `s` yields, for a `v` that decodes.
pub open spec fn dec_rel(v: HostValue, s: Shape, d: Data) -> bool
    decreases s, v,
{
    match s {
        Shape::Ignore => d is Unit,
        Shape::Any => match v {
            HostValue::Undefined | HostValue::Null => d is Unit,
            HostValue::Bool(b) => d == Data::Bool(b),
            HostValue::Number(x) => match v.spec_as_safe_integer() {
                Some(n) => d == Data::I64(n),
                None => d == Data::Float(x),
            },
            HostValue::Str(t) => d is Str && d->Str_0@ == t@,
            HostValue::Array(a) => {
                &&& d is List
                &&& d->List_0@.len() == a@.len()
                &&& forall|i: int| 0 <= i < a@.len() ==> dec_rel(#[trigger] a@[i], s, d->List_0@[i])
            },
            HostValue::Object(o) => {
                &&& d is Dict
                &&& d->Dict_0@.len() == o@.len()
                &&& forall|i: int|
                    0 <= i < o@.len() ==> {
                        &&& d->Dict_0@[i].0 == Data::Str((#[trigger] o@[i]).0)
                        &&& dec_rel(o@[i].1, s, d->Dict_0@[i].1)
                    }
            },
            _ => false,
        },
        Shape::Unit => d is Unit,
        Shape::Bool => v is Bool && d == Data::Bool(v->Bool_0),
        Shape::I32 => match int_request(v, i32::MIN as int, i32::MAX as int) {
            Ok(n) => d == Data::I32(n as i32),
            Err(_) => false,
        },
        Shape::U32 => match int_request(v, 0, u32::MAX as int) {
            Ok(n) => d == Data::U32(n as u32),
            Err(_) => false,
        },
        Shape::I64 => match int_request(v, i64::MIN as int, i64::MAX as int) {
            Ok(n) => d == Data::I64(n as i64),
            Err(_) => false,
        },
        Shape::U64 => match int_request(v, 0, u64::MAX as int) {
            Ok(n) => d == Data::U64(n as u64),
            Err(_) => false,
        },
        Shape::I128 => match int_request(v, i128::MIN as int, i128::MAX as int) {
            Ok(n) => d == Data::I128(n as i128),
            Err(_) => false,
        },
        Shape::U128 => match int_request(v, 0, u128::MAX as int) {
            Ok(n) => d == Data::U128(n as u128),
            Err(_) => false,
        },
        Shape::Float => v is Number && d == Data::Float(v->Number_0),
        Shape::Str => v is Str && d is Str && d->Str_0@ == v->Str_0@,
        Shape::Char => match char_request(v) {
            Ok(c) => d == Data::Char(c),
            Err(_) => false,
        },
        Shape::Bytes => v is Bytes && d is Bytes && d->Bytes_0@ == v->Bytes_0@,
        Shape::Optional(inner) => if v is Undefined || v is Null {
            d is Absent
        } else {
            d is Present && dec_rel(v, *inner, *d->Present_0)
        },
        Shape::Sequence(elem) => match seq_items(v) {
            Some(items) => {
                &&& d is List
                &&& d->List_0@.len() == items.len()
                &&& forall|i: int| 0 <= i < items.len() ==> dec_rel(#[trigger] items[i], *elem, d->List_0@[i])
            },
            None => false,
        },
        Shape::Tuple(ss) => match seq_items(v) {
            Some(items) => {
                &&& d is List
                &&& d->List_0@.len() == ss@.len()
                &&& forall|i: int| 0 <= i < ss@.len() ==> dec_rel(items[i], #[trigger] ss@[i], d->List_0@[i])
            },
            None => false,
        },
        Shape::Dict(ks, vs) => d is Dict && match v {
            HostValue::Array(a) => pairs_rel(a@, s, d->Dict_0@),
            HostValue::Iterable(a) => pairs_rel(a@, s, d->Dict_0@),
            HostValue::NativeMap(a) => pairs_rel(a@, s, d->Dict_0@),
            HostValue::Bytes(b) => b@.len() == 0 && d->Dict_0@.len() == 0,
            HostValue::Object(o) => {
                &&& d->Dict_0@.len() == o@.len()
                &&& forall|i: int|
                    0 <= i < o@.len() ==> {
                        &&& dec_rel(HostValue::Str((#[trigger] o@[i]).0), *ks, d->Dict_0@[i].0)
                        &&& dec_rel(o@[i].1, *vs, d->Dict_0@[i].1)
                    }
            },
            _ => false,
        },
        Shape::Struct(fs) => match v {
            HostValue::Object(o) => d is Struct && fields_rel(o@, fs@, d->Struct_0@),
            _ => false,
        },
        Shape::Enum(vs) => match v {
            HostValue::Str(tag) => d is UnitVariant && d->UnitVariant_0@ == tag@,
            HostValue::Object(o) => {
                let i = variant_index(vs@, o@[0].0@);
                &&& o@.len() == 1
                &&& 0 <= i < vs@.len()
                &&& variant_rel(o@[0].1, vs@[i].1, o@[0].0@, d)
            },
            _ => false,
        },
        Shape::Untagged(ss) => {
            let i = untagged_index(v, ss@);
            0 <= i < ss@.len() && dec_rel(v, ss@[i], d)
        },
    }
}

/// `es` holds the key/value pair of each of `items`, decoded under the map
/// request `s`: each item is an array whose first two elements (or `undefined`
/// where missing) are the key and the value.
pub open spec fn pairs_rel(items: Seq<HostValue>, s: Shape, es: Seq<(Data, Data)>) -> bool
    decreases s, items,
{
    &&& s is Dict
    &&& es.len() == items.len()
    &&& forall|i: int|
        0 <= i < items.len() ==> {
            &&& (#[trigger] items[i]) is Array
            &&& dec_rel(slot(items[i]->Array_0@, 0), key_shape(s), es[i].0)
            &&& dec_rel(slot(items[i]->Array_0@, 1), value_shape(s), es[i].1)
        }
}

/// `ds` holds each field of `fs`, by name and in order, decoded from the
/// object `o`.
pub open spec fn fields_rel(o: Seq<(String, HostValue)>, fs: Seq<(String, Shape)>, ds: Seq<(String, Data)>) -> bool
    decreases fs, o,
{
    &&& ds.len() == fs.len()
    &&& forall|i: int|
        0 <= i < fs.len() ==> {
            &&& ds[i].0@ == (#[trigger] fs[i]).0@
            &&& dec_rel(field_value(o, fs[i].0@), fs[i].1, ds[i].1)
        }
}

/// `d` is the variant `tag` of shape `vs`, its payload decoded from `p`.
pub open spec fn variant_rel(p: HostValue, vs: VariantShape, tag: Seq<char>, d: Data) -> bool
    decreases vs, p,
{
    match vs {
        VariantShape::Unit => d is UnitVariant && d->UnitVariant_0@ == tag,
        VariantShape::Newtype(s) => {
            &&& d is NewtypeVariant
            &&& d->NewtypeVariant_0@ == tag
            &&& dec_rel(p, *s, *d->NewtypeVariant_1)
        },
        VariantShape::Tuple(ss) => match seq_items(p) {
            Some(items) => {
                &&& d is TupleVariant
                &&& d->TupleVariant_0@ == tag
                &&& d->TupleVariant_1@.len() == ss@.len()
                &&& forall|i: int| 0 <= i < ss@.len() ==> dec_rel(items[i], #[trigger] ss@[i], d->TupleVariant_1@[i])
            },
            None => false,
        },
        VariantShape::Struct(fs) => match p {
            HostValue::Object(o) => {
                &&& d is StructVariant
                &&& d->StructVariant_0@ == tag
                &&& fields_rel(o@, fs@, d->StructVariant_1@)
            },
            _ => false,
        },
    }
}

/// What decoding `v` as `s` yields: the decoded data where `v` decodes, and
/// otherwise the first error met.
pub open spec fn dec_result(v: HostValue, s: Shape, r: Result<Data, Error>) -> bool {
    match r {
        Ok(d) => dec_err(v, s) is None && dec_rel(v, s, d),
        Err(e) => dec_err(v, s) == Some(e),
    }
}

/// Reads a signed 64-bit integer: a safe-integer number, or a big integer
/// in range.
pub fn deserialize_i64(v: &HostValue) -> (r: Result<i64, Error>)
    ensures
        match int_request(*v, i64::MIN as int, i64::MAX as int) {
            Ok(n) => r == Ok::<i64, Error>(n as i64),
            Err(e) => r == Err::<i64, Error>(e),
        },
{
    match v {
        HostValue::Number(Num::Int(n)) => if -MAX_SAFE_INTEGER <= *n && *n <= MAX_SAFE_INTEGER {
            Ok(*n)
        } else {
            Err(Error::TypeMismatch)
        },
        HostValue::BigInt(neg, mag) => if *neg {
            if *mag <= 0x8000_0000_0000_0000u128 {
                Ok((-(*mag as i128)) as i64)
            } else {
                Err(Error::Overflow)
            }
        } else if *mag <= i64::MAX as u128 {
            Ok(*mag as i64)
        } else {
            Err(Error::Overflow)
        },
        _ => Err(Error::TypeMismatch),
    }
}

/// Reads a 32-bit or narrower signed integer: the 64-bit reading, refused
/// where it does not fit.
pub fn deserialize_i32(v: &HostValue) -> (r: Result<i32, Error>)
    ensures
        match int_request(*v, i32::MIN as int, i32::MAX as int) {
            Ok(n) => r == Ok::<i32, Error>(n as i32),
            Err(e) => r == Err::<i32, Error>(e),
        },
{
    match deserialize_i64(v) {
        Ok(n) => if i32::MIN as i64 <= n && n <= i32::MAX as i64 {
            Ok(n as i32)
        } else {
            Err(Error::Overflow)
        },
        Err(e) => Err(e),
    }
}

/// Reads a 32-bit or narrower unsigned integer: the 64-bit reading, refused
/// where it does not fit.
pub fn deserialize_u32(v: &HostValue) -> (r: Result<u32, Error>)
    ensures
        match int_request(*v, 0, u32::MAX as int) {
            Ok(n) => r == Ok::<u32, Error>(n as u32),
            Err(e) => r == Err::<u32, Error>(e),
        },
{
    match deserialize_u64(v) {
        Ok(n) => if n <= u32::MAX as u64 {
            Ok(n as u32)
        } else {
            Err(Error::Overflow)
        },
        Err(e) => Err(e),
    }
}

/// Reads an unsigned 64-bit integer: a non-negative safe-integer number, or
/// a big integer in range.
pub fn deserialize_u64(v: &HostValue) -> (r: Result<u64, Error>)
    ensures
        match int_request(*v, 0, u64::MAX as int) {
            Ok(n) => r == Ok::<u64, Error>(n as u64),
            Err(e) => r == Err::<u64, Error>(e),
        },
{
    match v {
        HostValue::Number(Num::Int(n)) => if !(-MAX_SAFE_INTEGER <= *n && *n <= MAX_SAFE_INTEGER) {
            Err(Error::TypeMismatch)
        } else if *n >= 0 {
            Ok(*n as u64)
        } else {
            Err(Error::Overflow)
        },
        HostValue::BigInt(neg, mag) => if *neg {
            if *mag == 0 {
                Ok(0)
            } else {
                Err(Error::Overflow)
            }
        } else if *mag <= u64::MAX as u128 {
            Ok(*mag as u64)
        } else {
            Err(Error::Overflow)
        },
        _ => Err(Error::TypeMismatch),
    }
}

/// Reads a signed 128-bit integer: a safe-integer number, or a big integer
/// in range.
pub fn deserialize_i128(v: &HostValue) -> (r: Result<i128, Error>)
    ensures
        match int_request(*v, i128::MIN as int, i128::MAX as int) {
            Ok(n) => r == Ok::<i128, Error>(n as i128),
            Err(e) => r == Err::<i128, Error>(e),
        },
{
    match v {
        HostValue::Number(Num::Int(n)) => if -MAX_SAFE_INTEGER <= *n && *n <= MAX_SAFE_INTEGER {
            Ok(*n as i128)
        } else {
            Err(Error::TypeMismatch)
        },
        HostValue::BigInt(neg, mag) => if *neg {
            if *mag == 0x8000_0000_0000_0000_0000_0000_0000_0000u128 {
                Ok(i128::MIN)
            } else if *mag < 0x8000_0000_0000_0000_0000_0000_0000_0000u128 {
                Ok(-(*mag as i128))
            } else {
                Err(Error::Overflow)
            }
        } else if *mag <= i128::MAX as u128 {
            Ok(*mag as i128)
        } else {
            Err(Error::Overflow)
        },
        _ => Err(Error::TypeMismatch),
    }
}

/// Reads an unsigned 128-bit integer: a non-negative safe-integer number,
/// or a non-negative big integer.
pub fn deserialize_u128(v: &HostValue) -> (r: Result<u128, Error>)
    ensures
        match int_request(*v, 0, u128::MAX as int) {
            Ok(n) => r == Ok::<u128, Error>(n as u128),
            Err(e) => r == Err::<u128, Error>(e),
        },
{
    match v {
        HostValue::Number(Num::Int(n)) => if !(-MAX_SAFE_INTEGER <= *n && *n <= MAX_SAFE_INTEGER) {
            Err(Error::TypeMismatch)
        } else if *n >= 0 {
            Ok(*n as u128)
        } else {
            Err(Error::Overflow)
        },
        HostValue::BigInt(neg, mag) => if *neg && *mag != 0 {
            Err(Error::Overflow)
        } else {
            Ok(*mag)
        },
        _ => Err(Error::TypeMismatch),
    }
}

/// What a character request reads from `v`.
pub open spec fn char_request(v: HostValue) -> Result<char, Error> {
    match v {
        HostValue::Str(t) => if t@.len() == 1 {
            Ok(t@[0])
        } else {
            Err(Error::TypeMismatch)
        },
        _ => Err(Error::TypeMismatch),
    }
}

/// Reads a character: only a string of exactly one character.
pub fn deserialize_char(v: &HostValue) -> (r: Result<char, Error>)
    ensures
        r == char_request(*v),
{
    match v {
        HostValue::Str(t) => if t.as_str().unicode_len() == 1 {
            Ok(t.as_str().get_char(0))
        } else {
            Err(Error::TypeMismatch)
        },
        _ => Err(Error::TypeMismatch),
    }
}

/// Copies bytes into a freshly allocated buffer.
pub fn copy_bytes(b: &Vec<u8>) -> (r: Vec<u8>)
    ensures
        r@ == b@,
{
    let mut copy: Vec<u8> = Vec::with_capacity(b.len());
    let mut i: usize = 0;
    while i < b.len()
        invariant
            0 <= i <= b@.len(),
            copy@ == b@.subrange(0, i as int),
        decreases b@.len() - i,
    {
        copy.push(b[i]);
        i += 1;
    }
    assert(copy@ == b@);
    copy
}

/// The bytes of a buffer as host numbers, as iterating the buffer yields them.
fn byte_items(b: &Vec<u8>) -> (r: Vec<HostValue>)
    ensures
        r@ == b@.map_values(|x: u8| HostValue::Number(Num::Int(x as i64))),
{
    let mut items: Vec<HostValue> = Vec::with_capacity(b.len());
    let mut i: usize = 0;
    while i < b.len()
        invariant
            0 <= i <= b@.len(),
            items@ == b@.subrange(0, i as int).map_values(|x: u8| HostValue::Number(Num::Int(x as i64))),
        decreases b@.len() - i,
    {
        items.push(HostValue::Number(Num::Int(b[i] as i64)));
        proof {
            assert(b@.subrange(0, i + 1).drop_last() =~= b@.subrange(0, i as int));
        }
        i += 1;
        assert(items@ =~= b@.subrange(0, i as int).map_values(|x: u8| HostValue::Number(Num::Int(x as i64))));
    }
    assert(b@.subrange(0, b@.len() as int) =~= b@);
    items
}

/// The position of the first variant named `tag`, if any.
fn find_variant(vs: &Vec<(String, VariantShape)>, tag: &String) -> (r: Option<usize>)
    ensures
        match r {
            Some(i) => i < vs@.len() && variant_index(vs@, tag@) == i,
            None => variant_index(vs@, tag@) == -1,
        },
{
    assert(vs@.subrange(0, vs@.len() as int) =~= vs@);
    let mut i: usize = 0;
    while i < vs.len()
        invariant
            0 <= i <= vs@.len(),
            variant_index(vs@, tag@) == if variant_index(vs@.subrange(i as int, vs@.len() as int), tag@) < 0 {
                -1
            } else {
                variant_index(vs@.subrange(i as int, vs@.len() as int), tag@) + i
            },
        decreases vs@.len() - i,
    {
        let ghost rest = vs@.subrange(i as int, vs@.len() as int);
        assert(rest[0] == vs@[i as int]);
        assert(rest.drop_first() =~= vs@.subrange(i + 1, vs@.len() as int));
        if vs[i].0 == *tag {
            return Some(i);
        }
        i += 1;
    }
    None
}

/// Finds the value of the first property named `name`.
fn find_property(o: &Vec<(String, HostValue)>, name: &String) -> (r: Option<usize>)
    ensures
        match r {
            Some(i) => i < o@.len() && o@[i as int].0@ == name@ && lookup(o@, name@) == Some(o@[i as int].1),
            None => lookup(o@, name@) is None,
        },
{
    assert(o@.subrange(0, o@.len() as int) =~= o@);
    let mut i: usize = 0;
    while i < o.len()
        invariant
            0 <= i <= o@.len(),
            lookup(o@, name@) == lookup(o@.subrange(i as int, o@.len() as int), name@),
        decreases o@.len() - i,
    {
        let ghost rest = o@.subrange(i as int, o@.len() as int);
        assert(rest[0] == o@[i as int]);
        assert(rest.drop_first() =~= o@.subrange(i + 1, o@.len() as int));
        if o[i].0 == *name {
            return Some(i);
        }
        i += 1;
    }
    None
}

/// The error of decoding `v` as a tuple of the shapes `ss`: a length error
/// where `v` yields fewer elements than `ss` has, else the first error of
/// the elements.
pub open spec fn tuple_err(v: HostValue, ss: Seq<Shape>) -> Option<Error> {
    match seq_items(v) {
        Some(items) => if items.len() < ss.len() {
            Some(Error::InvalidLength(items.len() as usize))
        } else {
            positions_err(items, ss)
        },
        None => Some(Error::TypeMismatch),
    }
}

/// A string of one character decodes, as a character request, to that
/// character.
proof fn lemma_char_rel(v: HostValue, c: char)
    requires
        char_request(v) == Ok::<char, Error>(c),
    ensures
        dec_rel(v, Shape::Char, Data::Char(c)),
{
}

/// Decodes `v` as the shape `s`, as a consumer that requests `s` would.
pub fn decode(v: &HostValue, s: &Shape) -> (r: Result<Data, Error>)
    ensures
        dec_result(*v, *s, r),
    decreases s, v, 3int,
{
    match s {
        Shape::Ignore => Ok(Data::Unit),
        Shape::Any => match v {
            HostValue::Undefined | HostValue::Null => Ok(Data::Unit),
            HostValue::Bool(b) => Ok(Data::Bool(*b)),
            HostValue::Number(x) => match v.as_safe_integer() {
                Some(n) => {
                    Ok(Data::I64(n))
                },
                None => {
                    Ok(Data::Float(*x))
                },
            },
            HostValue::Str(t) => {
                Ok(Data::Str(t.clone()))
            },
            HostValue::Array(a) => {
                proof {
                    assert forall|i: int| 0 <= i < a@.len() implies decreases_to!(*v => a@[i]) by {
                        vstd::std_specs::vec::axiom_vec_index_decreases(*a, i);
                        assert(decreases_to!(*v => v->Array_0));
                    }
                }
                match decode_items(a, s, Ghost(*s), Ghost(*v)) {
                    Ok(ds) => {
                        Ok(Data::List(ds))
                    },
                    Err(e) => Err(e),
                }
            },
            HostValue::Object(o) => match decode_props(o, s, Ghost(*v)) {
                Ok(es) => {
                    Ok(Data::Dict(es))
                },
                Err(e) => Err(e),
            },
            _ => Err(Error::TypeMismatch),
        },
        Shape::Unit => if v.is_nullish() {
            Ok(Data::Unit)
        } else {
            Err(Error::TypeMismatch)
        },
        Shape::Bool => match v {
            HostValue::Bool(b) => Ok(Data::Bool(*b)),
            _ => Err(Error::TypeMismatch),
        },
        Shape::I32 => match deserialize_i32(v) {
            Ok(n) => Ok(Data::I32(n)),
            Err(e) => Err(e),
        },
        Shape::U32 => match deserialize_u32(v) {
            Ok(n) => Ok(Data::U32(n)),
            Err(e) => Err(e),
        },
        Shape::I64 => match deserialize_i64(v) {
            Ok(n) => {
                Ok(Data::I64(n))
            },
            Err(e) => Err(e),
        },
        Shape::U64 => match deserialize_u64(v) {
            Ok(n) => Ok(Data::U64(n)),
            Err(e) => Err(e),
        },
        Shape::I128 => match deserialize_i128(v) {
            Ok(n) => Ok(Data::I128(n)),
            Err(e) => Err(e),
        },
        Shape::U128 => match deserialize_u128(v) {
            Ok(n) => {
                Ok(Data::U128(n))
            },
            Err(e) => Err(e),
        },
        Shape::Float => match v {
            HostValue::Number(x) => Ok(Data::Float(*x)),
            _ => Err(Error::TypeMismatch),
        },
        Shape::Str => match v {
            HostValue::Str(t) => {
                Ok(Data::Str(t.clone()))
            },
            _ => Err(Error::TypeMismatch),
        },
        Shape::Char => match deserialize_char(v) {
            Ok(c) => {
                proof {
                    lemma_char_rel(*v, c);
                }
                Ok(Data::Char(c))
            },
            Err(e) => Err(e),
        },
        Shape::Bytes => match v {
            HostValue::Bytes(b) => {
                let c = copy_bytes(b);
                Ok(Data::Bytes(c))
            },
            _ => Err(Error::TypeMismatch),
        },
        Shape::Optional(inner) => if v.is_nullish() {
            Ok(Data::Absent)
        } else {
            match decode(v, inner) {
                Ok(d) => {
                    let b = Box::new(d);
                    Ok(Data::Present(b))
                },
                Err(e) => Err(e),
            }
        },
        Shape::Sequence(elem) => {
            proof {
                assert(decreases_to!(*s => *elem));
            }
            let r = match v {
                HostValue::Array(a) => decode_items(a, elem, Ghost(*s), Ghost(*v)),
                HostValue::Iterable(a) => decode_items(a, elem, Ghost(*s), Ghost(*v)),
                HostValue::NativeMap(a) => decode_items(a, elem, Ghost(*s), Ghost(*v)),
                HostValue::Bytes(b) => {
                    let nums = byte_items(b);
                    decode_items(&nums, elem, Ghost(*s), Ghost(*v))
                },
                _ => Err(Error::TypeMismatch),
            };
            match r {
                Ok(ds) => {
                    Ok(Data::List(ds))
                },
                Err(e) => Err(e),
            }
        },
        Shape::Tuple(ss) => {
            proof {
                assert(decreases_to!(*s => *ss));
            }
            match decode_tuple(v, ss, Ghost(*s), Ghost(*v)) {
                Ok(ds) => {
                    Ok(Data::List(ds))
                },
                Err(e) => Err(e),
            }
        },
        Shape::Dict(ks, vs) => {
            proof {
                assert(decreases_to!(*s => *ks));
                assert(decreases_to!(*s => *vs));
            }
            let r = match v {
                HostValue::NativeMap(a) => decode_item_pairs(a, s, ks, vs, Ghost(*v)),
                HostValue::Bytes(b) => if b.len() == 0 {
                    Ok(Vec::new())
                } else {
                    Err(Error::TypeMismatch)
                },
                HostValue::Array(a) => decode_item_pairs(a, s, ks, vs, Ghost(*v)),
                HostValue::Iterable(a) => decode_item_pairs(a, s, ks, vs, Ghost(*v)),
                HostValue::Object(o) => decode_props(o, s, Ghost(*v)),
                _ => Err(Error::TypeMismatch),
            };
            match r {
                Ok(es) => {
                    proof {
                        if v is Array {
                            assert(pairs_rel(v->Array_0@, *s, es@));
                        } else if v is Iterable {
                            assert(pairs_rel(v->Iterable_0@, *s, es@));
                        } else if v is NativeMap {
                            assert(pairs_rel(v->NativeMap_0@, *s, es@));
                        }
                    }
                    Ok(Data::Dict(es))
                },
                Err(e) => Err(e),
            }
        },
        Shape::Struct(fs) => match v {
            HostValue::Object(o) => {
                proof {
                    assert(decreases_to!(*s => *fs));
                }
                match decode_fields(o, fs, Ghost(*s), Ghost(*v)) {
                    Ok(ds) => {
                        Ok(Data::Struct(ds))
                    },
                    Err(e) => Err(e),
                }
            },
            _ => Err(Error::TypeMismatch),
        },
        Shape::Enum(vs) => match v {
            HostValue::Str(tag) => match find_variant(vs, tag) {
                None => Err(Error::UnknownVariant),
                Some(i) => match &vs[i].1 {
                    VariantShape::Unit => {
                        Ok(Data::UnitVariant(tag.clone()))
                    },
                    _ => Err(Error::TypeMismatch),
                },
            },
            HostValue::Object(o) => if o.len() != 1 {
                Err(Error::InvalidLength(o.len()))
            } else {
                let tag = &o[0].0;
                match find_variant(vs, tag) {
                    None => Err(Error::UnknownVariant),
                    Some(i) => {
                        proof {
                            vstd::std_specs::vec::axiom_vec_index_decreases(*vs, i as int);
                            assert(decreases_to!(*s => *vs));
                            assert(decreases_to!(vs@[i as int] => vs@[i as int].1));
                        }
                        decode_variant(&o[0].1, &vs[i].1, tag, Ghost(*s), Ghost(*v))
                    },
                }
            },
            _ => Err(Error::TypeMismatch),
        },
        Shape::Untagged(ss) => {
            proof {
                assert(decreases_to!(*s => *ss));
            }
            decode_untagged(v, ss, Ghost(*s), Ghost(*v))
        },
    }
}

/// Decodes `v` as the first of the shapes `ss` that accepts it.
fn decode_untagged(v: &HostValue, ss: &Vec<Shape>, Ghost(ps): Ghost<Shape>, Ghost(pv): Ghost<HostValue>) -> (r: Result<Data, Error>)
    requires
        decreases_to!(ps => *ss),
    ensures
        match r {
            Ok(d) => {
                let i = untagged_index(*v, ss@);
                0 <= i < ss@.len() && dec_rel(*v, ss@[i], d)
            },
            Err(e) => untagged_index(*v, ss@) == -1 && e == Error::NoVariantMatched,
        },
    decreases ps, pv, 0int,
{
    assert(ss@.subrange(0, ss@.len() as int) =~= ss@);
    let mut i: usize = 0;
    while i < ss.len()
        invariant
            0 <= i <= ss@.len(),
            decreases_to!(ps => *ss),
            untagged_index(*v, ss@) == if untagged_index(*v, ss@.subrange(i as int, ss@.len() as int)) < 0 {
                -1
            } else {
                untagged_index(*v, ss@.subrange(i as int, ss@.len() as int)) + i
            },
        decreases ss@.len() - i,
    {
        proof {
            let rest = ss@.subrange(i as int, ss@.len() as int);
            assert(rest[0] == ss@[i as int]);
            assert(rest.drop_first() =~= ss@.subrange(i + 1, ss@.len() as int));
            vstd::std_specs::vec::axiom_vec_index_decreases(*ss, i as int);
        }
        match decode(v, &ss[i]) {
            Ok(d) => return Ok(d),
            Err(_) => {},
        }
        i += 1;
    }
    Err(Error::NoVariantMatched)
}

/// Decodes each of `items` as `elem`, in order.
fn decode_items(items: &Vec<HostValue>, elem: &Shape, Ghost(ps): Ghost<Shape>, Ghost(pv): Ghost<HostValue>) -> (r: Result<Vec<Data>, Error>)
    requires
        decreases_to!(ps => *elem) || (*elem == ps && forall|i: int| 0 <= i < items@.len() ==> decreases_to!(pv => items@[i])),
    ensures
        match r {
            Ok(ds) => {
                &&& items_err(items@, *elem) is None
                &&& ds@.len() == items@.len()
                &&& forall|i: int| 0 <= i < items@.len() ==> dec_rel(#[trigger] items@[i], *elem, ds@[i])
            },
            Err(e) => items_err(items@, *elem) == Some(e),
        },
    decreases ps, pv, 0int,
{
    assert(items@.subrange(0, items@.len() as int) =~= items@);
    let mut ds: Vec<Data> = Vec::new();
    let mut i: usize = 0;
    while i < items.len()
        invariant
            0 <= i <= items@.len(),
            ds@.len() == i,
            decreases_to!(ps => *elem) || (*elem == ps && forall|i: int| 0 <= i < items@.len() ==> decreases_to!(pv => items@[i])),
            items_err(items@, *elem) == items_err(items@.subrange(i as int, items@.len() as int), *elem),
            forall|j: int| 0 <= j < i ==> dec_rel(#[trigger] items@[j], *elem, ds@[j]),
        decreases items@.len() - i,
    {
        proof {
            let rest = items@.subrange(i as int, items@.len() as int);
            assert(rest[0] == items@[i as int]);
            assert(rest.drop_first() =~= items@.subrange(i + 1, items@.len() as int));
        }
        match decode(&items[i], elem) {
            Ok(d) => ds.push(d),
            Err(e) => return Err(e),
        }
        i += 1;
    }
    Ok(ds)
}

/// Decodes a tuple of the shapes `ss` from `v`.
fn decode_tuple(v: &HostValue, ss: &Vec<Shape>, Ghost(ps): Ghost<Shape>, Ghost(pv): Ghost<HostValue>) -> (r: Result<Vec<Data>, Error>)
    requires
        decreases_to!(ps => *ss),
    ensures
        match r {
            Ok(ds) => {
                &&& tuple_err(*v, ss@) is None
                &&& seq_items(*v) is Some
                &&& ds@.len() == ss@.len()
                &&& forall|i: int| 0 <= i < ss@.len() ==> dec_rel(seq_items(*v)->0[i], #[trigger] ss@[i], ds@[i])
            },
            Err(e) => tuple_err(*v, ss@) == Some(e),
        },
    decreases ps, pv, 1int,
{
    match v {
        HostValue::Array(a) => decode_positions(a, ss, Ghost(ps), Ghost(pv)),
        HostValue::Iterable(a) => decode_positions(a, ss, Ghost(ps), Ghost(pv)),
        HostValue::NativeMap(a) => decode_positions(a, ss, Ghost(ps), Ghost(pv)),
        HostValue::Bytes(b) => {
            let nums = byte_items(b);
            decode_positions(&nums, ss, Ghost(ps), Ghost(pv))
        },
        _ => Err(Error::TypeMismatch),
    }
}

/// Decodes `items[i]` as `ss[i]` for each position of `ss`; fails on a
/// length error where there are fewer items than shapes.
fn decode_positions(items: &Vec<HostValue>, ss: &Vec<Shape>, Ghost(ps): Ghost<Shape>, Ghost(pv): Ghost<HostValue>) -> (r: Result<Vec<Data>, Error>)
    requires
        decreases_to!(ps => *ss),
    ensures
        match r {
            Ok(ds) => {
                &&& items@.len() >= ss@.len()
                &&& positions_err(items@, ss@) is None
                &&& ds@.len() == ss@.len()
                &&& forall|i: int| 0 <= i < ss@.len() ==> dec_rel(items@[i], #[trigger] ss@[i], ds@[i])
            },
            Err(e) => if items@.len() < ss@.len() {
                e == Error::InvalidLength(items@.len() as usize)
            } else {
                positions_err(items@, ss@) == Some(e)
            },
        },
    decreases ps, pv, 0int,
{
    if items.len() < ss.len() {
        return Err(Error::InvalidLength(items.len()));
    }
    assert(items@.subrange(0, items@.len() as int) =~= items@);
    assert(ss@.subrange(0, ss@.len() as int) =~= ss@);
    let mut ds: Vec<Data> = Vec::new();
    let mut i: usize = 0;
    while i < ss.len()
        invariant
            0 <= i <= ss@.len() <= items@.len(),
            ds@.len() == i,
            decreases_to!(ps => *ss),
            positions_err(items@, ss@) == positions_err(
                items@.subrange(i as int, items@.len() as int),
                ss@.subrange(i as int, ss@.len() as int),
            ),
            forall|j: int| 0 <= j < i ==> dec_rel(items@[j], #[trigger] ss@[j], ds@[j]),
        decreases ss@.len() - i,
    {
        proof {
            let rest = items@.subrange(i as int, items@.len() as int);
            assert(rest[0] == items@[i as int]);
            assert(rest.drop_first() =~= items@.subrange(i + 1, items@.len() as int));
            let srest = ss@.subrange(i as int, ss@.len() as int);
            assert(srest[0] == ss@[i as int]);
            assert(srest.drop_first() =~= ss@.subrange(i + 1, ss@.len() as int));
            vstd::std_specs::vec::axiom_vec_index_decreases(*ss, i as int);
        }
        match decode(&items[i], &ss[i]) {
            Ok(d) => ds.push(d),
            Err(e) => return Err(e),
        }
        i += 1;
    }
    Ok(ds)
}

/// Decodes the items of an iterable as key/value pairs under the map
/// request `s`: each item must be an array, whose first two elements (or
/// `undefined` where missing) are the key and the value.
fn decode_item_pairs(
    a: &Vec<HostValue>,
    s: &Shape,
    ks: &Shape,
    vs: &Shape,
    Ghost(pv): Ghost<HostValue>,
) -> (r: Result<Vec<(Data, Data)>, Error>)
    requires
        s is Dict,
        key_shape(*s) == *ks,
        value_shape(*s) == *vs,
        decreases_to!(*s => *ks),
        decreases_to!(*s => *vs),
    ensures
        match r {
            Ok(es) => {
                &&& item_pairs_err(a@, *s) is None
                &&& es@.len() == a@.len()
                &&& forall|i: int|
                    0 <= i < a@.len() ==> {
                        &&& (#[trigger] a@[i]) is Array
                        &&& dec_rel(slot(a@[i]->Array_0@, 0), *ks, es@[i].0)
                        &&& dec_rel(slot(a@[i]->Array_0@, 1), *vs, es@[i].1)
                    }
            },
            Err(e) => item_pairs_err(a@, *s) == Some(e),
        },
    decreases s, pv, 0int,
{
    assert(a@.subrange(0, a@.len() as int) =~= a@);
    let missing = HostValue::Undefined;
    let mut es: Vec<(Data, Data)> = Vec::new();
    let mut i: usize = 0;
    while i < a.len()
        invariant
            0 <= i <= a@.len(),
            es@.len() == i,
            missing is Undefined,
            s is Dict,
            key_shape(*s) == *ks,
            value_shape(*s) == *vs,
            decreases_to!(*s => *ks),
            decreases_to!(*s => *vs),
            item_pairs_err(a@, *s) == item_pairs_err(a@.subrange(i as int, a@.len() as int), *s),
            forall|j: int|
                0 <= j < i ==> {
                    &&& (#[trigger] a@[j]) is Array
                    &&& dec_rel(slot(a@[j]->Array_0@, 0), *ks, es@[j].0)
                    &&& dec_rel(slot(a@[j]->Array_0@, 1), *vs, es@[j].1)
                },
        decreases a@.len() - i,
    {
        proof {
            let rest = a@.subrange(i as int, a@.len() as int);
            assert(rest[0] == a@[i as int]);
            assert(rest.drop_first() =~= a@.subrange(i + 1, a@.len() as int));
        }
        let pair = match &a[i] {
            HostValue::Array(p) => p,
            _ => return Err(Error::TypeMismatch),
        };
        let kv = if pair.len() > 0 {
            &pair[0]
        } else {
            &missing
        };
        let xv = if pair.len() > 1 {
            &pair[1]
        } else {
            &missing
        };
        let k = match decode(kv, ks) {
            Ok(k) => k,
            Err(e) => return Err(e),
        };
        let x = match decode(xv, vs) {
            Ok(x) => x,
            Err(e) => return Err(e),
        };
        es.push((k, x));
        i += 1;
    }
    Ok(es)
}

/// Decodes the properties of a plain object as map entries: under the map
/// request `s`, or with string keys and inferred values where `s` is `Any`.
fn decode_props(o: &Vec<(String, HostValue)>, s: &Shape, Ghost(pv): Ghost<HostValue>) -> (r: Result<Vec<(Data, Data)>, Error>)
    requires
        s is Dict || s is Any,
        pv == HostValue::Object(*o),
    ensures
        match r {
            Ok(es) => {
                &&& props_err(o@, *s) is None
                &&& es@.len() == o@.len()
                &&& forall|i: int|
                    0 <= i < o@.len() ==> {
                        &&& s is Dict ==> dec_rel(HostValue::Str((#[trigger] o@[i]).0), key_shape(*s), es@[i].0)
                        &&& s is Any ==> es@[i].0 == Data::Str(o@[i].0)
                        &&& dec_rel(o@[i].1, value_shape(*s), es@[i].1)
                    }
            },
            Err(e) => props_err(o@, *s) == Some(e),
        },
    decreases s, pv, 0int,
{
    assert(o@.subrange(0, o@.len() as int) =~= o@);
    let any = Shape::Any;
    let mut es: Vec<(Data, Data)> = Vec::new();
    let mut i: usize = 0;
    while i < o.len()
        invariant
            0 <= i <= o@.len(),
            es@.len() == i,
            s is Dict || s is Any,
            any is Any,
            pv == HostValue::Object(*o),
            props_err(o@, *s) == props_err(o@.subrange(i as int, o@.len() as int), *s),
            forall|j: int|
                0 <= j < i ==> {
                    &&& s is Dict ==> dec_rel(HostValue::Str((#[trigger] o@[j]).0), key_shape(*s), es@[j].0)
                    &&& s is Any ==> es@[j].0 == Data::Str(o@[j].0)
                    &&& dec_rel(o@[j].1, value_shape(*s), es@[j].1)
                },
        decreases o@.len() - i,
    {
        proof {
            let rest = o@.subrange(i as int, o@.len() as int);
            assert(rest[0] == o@[i as int]);
            assert(rest.drop_first() =~= o@.subrange(i + 1, o@.len() as int));
            vstd::std_specs::vec::axiom_vec_index_decreases(*o, i as int);
            assert(decreases_to!(pv => pv->Object_0));
        }
        let k: Data;
        let vshape: &Shape;
        match s {
            Shape::Dict(ks, vs) => {
                proof {
                    assert(decreases_to!(*s => *ks));
                    assert(decreases_to!(*s => *vs));
                }
                let key = HostValue::Str(o[i].0.clone());
                match decode(&key, ks) {
                    Ok(d) => {
                        k = d;
                    },
                    Err(e) => return Err(e),
                }
                vshape = vs;
            },
            _ => {
                k = Data::Str(o[i].0.clone());
                vshape = &any;
            },
        }
        let x = match decode(&o[i].1, vshape) {
            Ok(x) => x,
            Err(e) => return Err(e),
        };
        es.push((k, x));
        i += 1;
    }
    Ok(es)
}

/// Decodes each named field of `fs` from the object `o`, in the order of
/// `fs`; a field the object lacks is decoded from `undefined`, and
/// properties that `fs` does not name are ignored.
fn decode_fields(
    o: &Vec<(String, HostValue)>,
    fs: &Vec<(String, Shape)>,
    Ghost(ps): Ghost<Shape>,
    Ghost(pv): Ghost<HostValue>,
) -> (r: Result<Vec<(String, Data)>, Error>)
    requires
        decreases_to!(ps => *fs),
    ensures
        match r {
            Ok(ds) => fields_err(o@, fs@) is None && fields_rel(o@, fs@, ds@),
            Err(e) => fields_err(o@, fs@) == Some(e),
        },
    decreases ps, pv, 0int,
{
    assert(fs@.subrange(0, fs@.len() as int) =~= fs@);
    let missing = HostValue::Undefined;
    let mut ds: Vec<(String, Data)> = Vec::new();
    let mut i: usize = 0;
    while i < fs.len()
        invariant
            0 <= i <= fs@.len(),
            ds@.len() == i,
            missing is Undefined,
            decreases_to!(ps => *fs),
            fields_err(o@, fs@) == fields_err(o@, fs@.subrange(i as int, fs@.len() as int)),
            forall|j: int|
                0 <= j < i ==> {
                    &&& ds@[j].0@ == (#[trigger] fs@[j]).0@
                    &&& dec_rel(field_value(o@, fs@[j].0@), fs@[j].1, ds@[j].1)
                },
        decreases fs@.len() - i,
    {
        proof {
            let rest = fs@.subrange(i as int, fs@.len() as int);
            assert(rest[0] == fs@[i as int]);
            assert(rest.drop_first() =~= fs@.subrange(i + 1, fs@.len() as int));
            vstd::std_specs::vec::axiom_vec_index_decreases(*fs, i as int);
            assert(decreases_to!(fs@[i as int] => fs@[i as int].1));
        }
        let field = &fs[i];
        let fv = match find_property(o, &field.0) {
            Some(j) => &o[j].1,
            None => &missing,
        };
        match decode(fv, &field.1) {
            Ok(d) => ds.push((field.0.clone(), d)),
            Err(e) => return Err(e),
        }
        i += 1;
    }
    Ok(ds)
}

/// Decodes the payload `p` of the variant `tag`, whose shape is `vshape`.
fn decode_variant(
    p: &HostValue,
    vshape: &VariantShape,
    tag: &String,
    Ghost(ps): Ghost<Shape>,
    Ghost(pv): Ghost<HostValue>,
) -> (r: Result<Data, Error>)
    requires
        decreases_to!(ps => *vshape),
    ensures
        match r {
            Ok(d) => variant_err(*p, *vshape) is None && variant_rel(*p, *vshape, tag@, d),
            Err(e) => variant_err(*p, *vshape) == Some(e),
        },
    decreases ps, pv, 2int,
{
    match vshape {
        VariantShape::Unit => if p.is_nullish() {
            Ok(Data::UnitVariant(tag.clone()))
        } else {
            Err(Error::TypeMismatch)
        },
        VariantShape::Newtype(inner) => match decode(p, inner) {
            Ok(d) => Ok(Data::NewtypeVariant(tag.clone(), Box::new(d))),
            Err(e) => Err(e),
        },
        VariantShape::Tuple(ss) => {
            proof {
                assert(decreases_to!(*vshape => *ss));
            }
            match decode_tuple(p, ss, Ghost(ps), Ghost(pv)) {
                Ok(ds) => Ok(Data::TupleVariant(tag.clone(), ds)),
                Err(e) => Err(e),
            }
        },
        VariantShape::Struct(fs) => match p {
            HostValue::Object(o) => {
                proof {
                    assert(decreases_to!(*vshape => *fs));
                }
                match decode_fields(o, fs, Ghost(ps), Ghost(pv)) {
                    Ok(ds) => Ok(Data::StructVariant(tag.clone(), ds)),
                    Err(e) => Err(e),
                }
            },
            _ => Err(Error::TypeMismatch),
        },
    }
}

/// Gives a dynamic value to a decoding consumer.
pub struct Deserializer {
    pub value: HostValue,
}

impl Deserializer {
    /// Wraps a dynamic value.
    pub fn from(value: HostValue) -> (r: Deserializer)
        ensures
            r.value == value,
    {
        Deserializer { value }
    }

    /// Decodes the wrapped value as the shape `s`.
    pub fn deserialize(&self, s: &Shape) -> (r: Result<Data, Error>)
        ensures
            dec_result(self.value, *s, r),
    {
        decode(&self.value, s)
    }
}

/// Every item is an array.
pub open spec fn all_arrays(items: Seq<HostValue>) -> bool {
    forall|i: int| 0 <= i < items.len() ==> (#[trigger] items[i]) is Array
}

/// The key/value pair an array item holds: its first two elements,
/// `undefined` standing for a missing one.
pub open spec fn item_pair(x: HostValue) -> (HostValue, HostValue) {
    (slot(x->Array_0@, 0), slot(x->Array_0@, 1))
}

/// `es` holds, in order, the key/value pair of each of `items`.
pub open spec fn item_pairs(items: Seq<HostValue>, es: Seq<(HostValue, HostValue)>) -> bool {
    &&& es.len() == items.len()
    &&& forall|i: int| 0 <= i < items.len() ==> es[i] == item_pair(#[trigger] items[i])
}

/// `es` holds, in order, the properties of `o`, names as host strings.
pub open spec fn property_pairs(o: Seq<(String, HostValue)>, es: Seq<(HostValue, HostValue)>) -> bool {
    &&& es.len() == o.len()
    &&& forall|i: int| 0 <= i < o.len() ==> es[i] == (HostValue::Str((#[trigger] o[i]).0), o[i].1)
}

/// A sequence request: the elements of an array or another iterable, or
/// the bytes of a byte buffer as numbers.
pub fn sequence_request(v: HostValue) -> (r: Result<Vec<HostValue>, Error>)
    ensures
        match seq_items(v) {
            Some(items) => r is Ok && r->Ok_0@ == items,
            None => r == Err::<Vec<HostValue>, Error>(Error::TypeMismatch),
        },
{
    match v {
        HostValue::Array(a) => Ok(a),
        HostValue::Iterable(a) => Ok(a),
        HostValue::NativeMap(a) => Ok(a),
        HostValue::Bytes(b) => Ok(byte_items(&b)),
        _ => Err(Error::TypeMismatch),
    }
}

/// Splits an array read as a key/value pair into its first two elements,
/// `undefined` standing for a missing one.
fn split_pair(p: Vec<HostValue>) -> (r: (HostValue, HostValue))
    ensures
        r == (slot(p@, 0), slot(p@, 1)),
{
    let mut p = p;
    let ghost old_p = p@;
    if p.len() == 0 {
        (HostValue::Undefined, HostValue::Undefined)
    } else if p.len() == 1 {
        let k = p.remove(0);
        (k, HostValue::Undefined)
    } else {
        let k = p.remove(0);
        let x = p.remove(0);
        assert(x == old_p[1]);
        (k, x)
    }
}

/// A map request: the items of an array, a native map or another iterable
/// (each item an array whose first two elements are the key and the value),
/// no entries for an empty byte buffer, or the properties of a plain object
/// with their names as host strings. Anything else is refused.
pub fn map_request(v: HostValue) -> (r: Result<Vec<(HostValue, HostValue)>, Error>)
    ensures
        match v {
            HostValue::Object(o) => r is Ok && property_pairs(o@, r->Ok_0@),
            HostValue::Bytes(b) => if b@.len() == 0 {
                r is Ok && r->Ok_0@.len() == 0
            } else {
                r == Err::<Vec<(HostValue, HostValue)>, Error>(Error::TypeMismatch)
            },
            _ => match seq_items(v) {
                Some(items) => if all_arrays(items) {
                    r is Ok && item_pairs(items, r->Ok_0@)
                } else {
                    r == Err::<Vec<(HostValue, HostValue)>, Error>(Error::TypeMismatch)
                },
                None => r == Err::<Vec<(HostValue, HostValue)>, Error>(Error::TypeMismatch),
            },
        },
{
    match v {
        HostValue::NativeMap(m) => take_item_pairs(m),
        HostValue::Bytes(b) => if b.len() == 0 {
            Ok(Vec::new())
        } else {
            Err(Error::TypeMismatch)
        },
        HostValue::Object(o) => {
            let ghost orig = o@;
            let mut o = o;
            let mut out: Vec<(HostValue, HostValue)> = Vec::new();
            while o.len() > 0
                invariant
                    orig.len() == out@.len() + o@.len(),
                    o@ == orig.subrange(out@.len() as int, orig.len() as int),
                    property_pairs(orig.subrange(0, out@.len() as int), out@),
                decreases o@.len(),
            {
                let (k, x) = o.remove(0);
                let ghost n = out@.len() as int;
                assert(orig[n] == (k, x));
                out.push((HostValue::Str(k), x));
                assert forall|i: int| 0 <= i < n + 1 implies out@[i] == (
                    HostValue::Str((#[trigger] orig.subrange(0, n + 1)[i]).0),
                    orig.subrange(0, n + 1)[i].1,
                ) by {
                    if i < n {
                        assert(orig.subrange(0, n + 1)[i] == orig.subrange(0, n)[i]);
                    }
                }
                assert(o@ =~= orig.subrange(n + 1, orig.len() as int));
            }
            assert(orig.subrange(0, orig.len() as int) =~= orig);
            Ok(out)
        },
        HostValue::Array(a) => take_item_pairs(a),
        HostValue::Iterable(a) => take_item_pairs(a),
        _ => Err(Error::TypeMismatch),
    }
}

/// Reads each item of an iterable as a key/value pair.
fn take_item_pairs(items: Vec<HostValue>) -> (r: Result<Vec<(HostValue, HostValue)>, Error>)
    ensures
        if all_arrays(items@) {
            r is Ok && item_pairs(items@, r->Ok_0@)
        } else {
            r == Err::<Vec<(HostValue, HostValue)>, Error>(Error::TypeMismatch)
        },
{
    let ghost orig = items@;
    let mut a = items;
    let mut out: Vec<(HostValue, HostValue)> = Vec::new();
    while a.len() > 0
        invariant
            orig == items@,
            orig.len() == out@.len() + a@.len(),
            a@ == orig.subrange(out@.len() as int, orig.len() as int),
            all_arrays(orig.subrange(0, out@.len() as int)),
            item_pairs(orig.subrange(0, out@.len() as int), out@),
        decreases a@.len(),
    {
        let ghost n = out@.len() as int;
        let item = a.remove(0);
        assert(item == orig[n]);
        match item {
            HostValue::Array(p) => {
                out.push(split_pair(p));
                assert forall|i: int| 0 <= i < n + 1 implies (#[trigger] orig.subrange(0, n + 1)[i]) is Array && out@[i]
                    == item_pair(orig.subrange(0, n + 1)[i]) by {
                    if i < n {
                        assert(orig.subrange(0, n + 1)[i] == orig.subrange(0, n)[i]);
                    }
                }
                assert(a@ =~= orig.subrange(n + 1, orig.len() as int));
            },
            _ => {
                assert(!(orig[n] is Array));
                return Err(Error::TypeMismatch);
            },
        }
    }
    assert(orig.subrange(0, orig.len() as int) =~= orig);
    Ok(out)
}

/// A struct request: a copy of the value of each named field of a plain
/// object, in the order of `fields`, `undefined` where the object lacks the
/// field. Properties that `fields` does not name are dropped; any value
/// that is not a plain object is refused.
pub fn struct_request(v: HostValue, fields: &Vec<String>) -> (r: Result<Vec<HostValue>, Error>)
    ensures
        match v {
            HostValue::Object(o) => {
                &&& r is Ok
                &&& r->Ok_0@.len() == fields@.len()
                &&& forall|i: int|
                    0 <= i < fields@.len() ==> same(field_value(o@, (#[trigger] fields@[i])@), r->Ok_0@[i])
            },
            _ => r == Err::<Vec<HostValue>, Error>(Error::TypeMismatch),
        },
{
    match v {
        HostValue::Object(o) => {
            let mut out: Vec<HostValue> = Vec::new();
            let mut i: usize = 0;
            while i < fields.len()
                invariant
                    0 <= i <= fields@.len(),
                    out@.len() == i,
                    forall|k: int| 0 <= k < i ==> same(field_value(o@, (#[trigger] fields@[k])@), out@[k]),
                decreases fields@.len() - i,
            {
                match find_property(&o, &fields[i]) {
                    Some(j) => out.push(o[j].1.duplicate()),
                    None => out.push(HostValue::Undefined),
                }
                i += 1;
            }
            Ok(out)
        },
        _ => Err(Error::TypeMismatch),
    }
}

/// An enum request: a string is the tag of a unit variant, with an
/// `undefined` payload; a plain object of exactly one property gives its
/// name as the tag and its value as the payload.
pub fn enum_request(v: HostValue) -> (r: Result<(String, HostValue), Error>)
    ensures
        match v {
            HostValue::Str(t) => r == Ok::<(String, HostValue), Error>((t, HostValue::Undefined)),
            HostValue::Object(o) => if o@.len() == 1 {
                r == Ok::<(String, HostValue), Error>(o@[0])
            } else {
                r == Err::<(String, HostValue), Error>(Error::InvalidLength(o@.len() as usize))
            },
            _ => r == Err::<(String, HostValue), Error>(Error::TypeMismatch),
        },
{
    match v {
        HostValue::Str(t) => Ok((t, HostValue::Undefined)),
        HostValue::Object(o) => {
            let mut o = o;
            if o.len() == 1 {
                let entry = o.remove(0);
                Ok(entry)
            } else {
                Err(Error::InvalidLength(o.len()))
            }
        },
        _ => Err(Error::TypeMismatch),
    }
}

/// What an unconstrained request finds in a value.
#[derive(Debug)]
pub enum Inferred {
    Unit,
    Bool(bool),
    Int(i64),
    Float(Num),
    Str(String),
    /// The elements of an array.
    Elements(Vec<HostValue>),
    /// The properties of a plain object.
    Properties(Vec<(String, HostValue)>),
}

/// An unconstrained request: `undefined` and `null` are a unit, a number
/// that is a safe integer is an integer, any other number a float, an array
/// a sequence and a plain object a map; big integers, byte buffers, native
/// maps and other iterables are refused, to be requested by their shape.
pub fn any_request(v: HostValue) -> (r: Result<Inferred, Error>)
    ensures
        match v {
            HostValue::Undefined | HostValue::Null => r == Ok::<Inferred, Error>(Inferred::Unit),
            HostValue::Bool(b) => r == Ok::<Inferred, Error>(Inferred::Bool(b)),
            HostValue::Number(x) => match v.spec_as_safe_integer() {
                Some(n) => r == Ok::<Inferred, Error>(Inferred::Int(n)),
                None => r == Ok::<Inferred, Error>(Inferred::Float(x)),
            },
            HostValue::Str(t) => r == Ok::<Inferred, Error>(Inferred::Str(t)),
            HostValue::Array(a) => r == Ok::<Inferred, Error>(Inferred::Elements(a)),
            HostValue::Object(o) => r == Ok::<Inferred, Error>(Inferred::Properties(o)),
            _ => r == Err::<Inferred, Error>(Error::TypeMismatch),
        },
{
    let safe = v.as_safe_integer();
    match v {
        HostValue::Undefined | HostValue::Null => Ok(Inferred::Unit),
        HostValue::Bool(b) => Ok(Inferred::Bool(b)),
        HostValue::Number(x) => match safe {
            Some(n) => Ok(Inferred::Int(n)),
            None => Ok(Inferred::Float(x)),
        },
        HostValue::Str(t) => Ok(Inferred::Str(t)),
        HostValue::Array(a) => Ok(Inferred::Elements(a)),
        HostValue::Object(o) => Ok(Inferred::Properties(o)),
        _ => Err(Error::TypeMismatch),
    }
}

} // verus!
