//! The encoder: typed data to a dynamic host value.
use vstd::prelude::*;
use crate::error::Error;
use crate::value::{Data, HostValue, Num, MAX_SAFE_INTEGER, is_safe_int, big_host};

verus! {

/// Encoder settings: immutable once built, read by every nested call.
#[derive(Debug, Clone, Copy)]
pub struct Serializer {
    /// Maps become plain objects (whose keys must encode to strings) rather
    /// than native key/value collections.
    pub serialize_maps_as_objects: bool,
    /// 64 and 128-bit integers outside the safe range become big integers
    /// rather than failing.
    pub serialize_large_number_types_as_bigints: bool,
}

/// The outcome of encoding the 64 or 128-bit integer `n`: a big integer of
/// that exact value whenever big integers are on, else a number where `n`
/// is safe, else an error.
pub open spec fn enc_int(cfg: Serializer, n: int) -> Result<HostValue, Error> {
    if cfg.serialize_large_number_types_as_bigints {
        Ok(big_host(n))
    } else if is_safe_int(n) {
        Ok(HostValue::Number(Num::Int(n as i64)))
    } else {
        Err(Error::UnrepresentableInteger)
    }
}

/// The error of encoding the integer `n`, if any.
pub open spec fn int_err(cfg: Serializer, n: int) -> Option<Error> {
    match enc_int(cfg, n) {
        Ok(_) => None,
        Err(e) => Some(e),
    }
}

/// Whether `d` encodes to a host string.
pub open spec fn encodes_to_string(d: Data) -> bool
    decreases d,
{
    match d {
        Data::Str(_) => true,
        Data::Char(_) => true,
        Data::UnitVariant(_) => true,
        Data::Present(x) => encodes_to_string(*x),
        _ => false,
    }
}

/// The error of encoding one map entry: the key's own, then the string-key
/// rule of plain-object maps, then the value's own.
pub open spec fn entry_err(key_err: Option<Error>, key_is_str: bool, value_err: Option<Error>, cfg: Serializer) -> Option<Error> {
    if key_err is Some {
        key_err
    } else if cfg.serialize_maps_as_objects && !key_is_str {
        Some(Error::NonStringMapKey)
    } else {
        value_err
    }
}

/// The first error met when encoding `d` depth-first, in order; `None` when
/// `d` encodes.
pub open spec fn enc_err(d: Data, cfg: Serializer) -> Option<Error>
    decreases d,
{
    match d {
        Data::I64(n) => int_err(cfg, n as int),
        Data::U64(n) => int_err(cfg, n as int),
        Data::I128(n) => int_err(cfg, n as int),
        Data::U128(n) => int_err(cfg, n as int),
        Data::Present(x) => enc_err(*x, cfg),
        Data::NewtypeVariant(_, x) => enc_err(*x, cfg),
        Data::List(xs) => elems_err(xs@, cfg),
        Data::TupleVariant(_, xs) => elems_err(xs@, cfg),
        Data::Dict(es) => entries_err(es@, cfg),
        Data::Struct(fs) => fields_err(fs@, cfg),
        Data::StructVariant(_, fs) => fields_err(fs@, cfg),
        _ => None,
    }
}

/// The first error met when encoding the elements `xs` in order.
pub open spec fn elems_err(xs: Seq<Data>, cfg: Serializer) -> Option<Error>
    decreases xs,
{
    if xs.len() == 0 {
        None
    } else if enc_err(xs[0], cfg) is Some {
        enc_err(xs[0], cfg)
    } else {
        elems_err(xs.drop_first(), cfg)
    }
}

/// The first error met when encoding the map entries `es` in order.
pub open spec fn entries_err(es: Seq<(Data, Data)>, cfg: Serializer) -> Option<Error>
    decreases es,
{
    if es.len() == 0 {
        None
    } else {
        let e = entry_err(enc_err(es[0].0, cfg), encodes_to_string(es[0].0), enc_err(es[0].1, cfg), cfg);
        if e is Some {
            e
        } else {
            entries_err(es.drop_first(), cfg)
        }
    }
}

/// The first error met when encoding the values of the fields `fs` in order.
pub open spec fn fields_err(fs: Seq<(String, Data)>, cfg: Serializer) -> Option<Error>
    decreases fs,
{
    if fs.len() == 0 {
        None
    } else if enc_err(fs[0].1, cfg) is Some {
        enc_err(fs[0].1, cfg)
    } else {
        fields_err(fs.drop_first(), cfg)
    }
}

/// `v` is a one-entry plain object whose key is `name`.
pub open spec fn is_wrapped(v: HostValue, name: Seq<char>) -> bool {
    &&& v is Object
    &&& v->Object_0@.len() == 1
    &&& v->Object_0@[0].0@ == name
}

/// The payload of a one-entry plain object.
pub open spec fn wrapped_payload(v: HostValue) -> HostValue {
    v->Object_0@[0].1
}

/// `v` is the encoding of `d`, for a `d` that encodes.
pub open spec fn enc_rel(d: Data, cfg: Serializer, v: HostValue) -> bool
    decreases d,
{
    match d {
        Data::Unit => v is Undefined,
        Data::Absent => v is Undefined,
        Data::Bool(b) => v == HostValue::Bool(b),
        Data::I32(n) => v == HostValue::Number(Num::Int(n as i64)),
        Data::U32(n) => v == HostValue::Number(Num::Int(n as i64)),
        Data::I64(n) => enc_int(cfg, n as int) == Ok::<HostValue, Error>(v),
        Data::U64(n) => enc_int(cfg, n as int) == Ok::<HostValue, Error>(v),
        Data::I128(n) => enc_int(cfg, n as int) == Ok::<HostValue, Error>(v),
        Data::U128(n) => enc_int(cfg, n as int) == Ok::<HostValue, Error>(v),
        Data::Float(x) => v == HostValue::Number(x),
        Data::Char(c) => v is Str && v->Str_0@ == seq![c],
        Data::Str(s) => v is Str && v->Str_0@ == s@,
        Data::Bytes(b) => v is Bytes && v->Bytes_0@ == b@,
        Data::Present(x) => enc_rel(*x, cfg, v),
        Data::UnitVariant(name) => v is Str && v->Str_0@ == name@,
        Data::NewtypeVariant(name, x) => is_wrapped(v, name@) && enc_rel(*x, cfg, wrapped_payload(v)),
        Data::List(xs) => {
            &&& v is Array
            &&& v->Array_0@.len() == xs@.len()
            &&& forall|i: int| 0 <= i < xs@.len() ==> enc_rel(#[trigger] xs@[i], cfg, v->Array_0@[i])
        },
        Data::TupleVariant(name, xs) => {
            &&& is_wrapped(v, name@)
            &&& wrapped_payload(v) is Array
            &&& wrapped_payload(v)->Array_0@.len() == xs@.len()
            &&& forall|i: int|
                0 <= i < xs@.len() ==> enc_rel(#[trigger] xs@[i], cfg, wrapped_payload(v)->Array_0@[i])
        },
        Data::Dict(es) => if cfg.serialize_maps_as_objects {
            &&& v is Object
            &&& v->Object_0@.len() == es@.len()
            &&& forall|i: int|
                0 <= i < es@.len() ==> {
                    &&& enc_rel((#[trigger] es@[i]).0, cfg, HostValue::Str(v->Object_0@[i].0))
                    &&& enc_rel(es@[i].1, cfg, v->Object_0@[i].1)
                }
        } else {
            &&& v is NativeMap
            &&& v->NativeMap_0@.len() == es@.len()
            &&& forall|i: int|
                0 <= i < es@.len() ==> {
                    &&& is_pair(v->NativeMap_0@[i])
                    &&& enc_rel((#[trigger] es@[i]).0, cfg, pair_key(v->NativeMap_0@[i]))
                    &&& enc_rel(es@[i].1, cfg, pair_value(v->NativeMap_0@[i]))
                }
        },
        Data::Struct(fs) => {
            &&& v is Object
            &&& v->Object_0@.len() == fs@.len()
            &&& forall|i: int|
                0 <= i < fs@.len() ==> {
                    &&& v->Object_0@[i].0@ == (#[trigger] fs@[i]).0@
                    &&& enc_rel(fs@[i].1, cfg, v->Object_0@[i].1)
                }
        },
        Data::StructVariant(name, fs) => {
            &&& is_wrapped(v, name@)
            &&& wrapped_payload(v) is Object
            &&& wrapped_payload(v)->Object_0@.len() == fs@.len()
            &&& forall|i: int|
                0 <= i < fs@.len() ==> {
                    &&& wrapped_payload(v)->Object_0@[i].0@ == (#[trigger] fs@[i]).0@
                    &&& enc_rel(fs@[i].1, cfg, wrapped_payload(v)->Object_0@[i].1)
                }
        },
    }
}

/// What encoding `d` under `cfg` yields: the encoding where `d` encodes, and
/// otherwise the first error met.
pub open spec fn enc_result(d: Data, cfg: Serializer, r: Result<HostValue, Error>) -> bool {
    match r {
        Ok(v) => enc_err(d, cfg) is None && enc_rel(d, cfg, v),
        Err(e) => enc_err(d, cfg) == Some(e),
    }
}

/// Relies on `String::from(char)`: a string of that one character.
#[verifier::external_body]
fn string_of_char(c: char) -> (r: String)
    ensures
        r@ == seq![c],
{
    String::from(c)
}

/// `v` is a two-element array: an entry of a native map.
pub open spec fn is_pair(v: HostValue) -> bool {
    v is Array && v->Array_0@.len() == 2
}

/// The first element of a native map's entry: its key.
pub open spec fn pair_key(v: HostValue) -> HostValue {
    v->Array_0@[0]
}

/// The second element of a native map's entry: its value.
pub open spec fn pair_value(v: HostValue) -> HostValue {
    v->Array_0@[1]
}

/// The two-element array `[key, value]`, as a native map's entry.
fn pair_array(key: HostValue, value: HostValue) -> (r: HostValue)
    ensures
        is_pair(r),
        pair_key(r) == key,
        pair_value(r) == value,
{
    let mut pair: Vec<HostValue> = Vec::new();
    pair.push(key);
    pair.push(value);
    assert(pair@ == seq![key, value]);
    HostValue::Array(pair)
}

/// Wraps an encoded payload as `{ name: payload }`.
fn wrap_variant(name: &String, payload: HostValue) -> (r: HostValue)
    ensures
        is_wrapped(r, name@),
        wrapped_payload(r) == payload,
{
    let mut entries: Vec<(String, HostValue)> = Vec::new();
    entries.push((name.clone(), payload));
    HostValue::Object(entries)
}

impl Serializer {
    /// The default settings: native maps, no big integers.
    pub open spec fn spec_default() -> Serializer {
        Serializer { serialize_maps_as_objects: false, serialize_large_number_types_as_bigints: false }
    }

    /// Creates the default settings.
    pub fn new() -> (r: Serializer)
        ensures
            r == Serializer::spec_default(),
    {
        Serializer { serialize_maps_as_objects: false, serialize_large_number_types_as_bigints: false }
    }

    /// Sets whether maps become plain objects.
    pub fn serialize_maps_as_objects(self, value: bool) -> (r: Serializer)
        ensures
            r.serialize_maps_as_objects == value,
            r.serialize_large_number_types_as_bigints == self.serialize_large_number_types_as_bigints,
    {
        Serializer { serialize_maps_as_objects: value, ..self }
    }

    /// Sets whether out-of-range 64 and 128-bit integers become big integers.
    pub fn serialize_large_number_types_as_bigints(self, value: bool) -> (r: Serializer)
        ensures
            r.serialize_maps_as_objects == self.serialize_maps_as_objects,
            r.serialize_large_number_types_as_bigints == value,
    {
        Serializer { serialize_large_number_types_as_bigints: value, ..self }
    }

    /// Encodes a 32-bit or narrower signed integer: always a number.
    pub fn serialize_i32(&self, v: i32) -> (r: HostValue)
        ensures
            r == HostValue::Number(Num::Int(v as i64)),
    {
        HostValue::Number(Num::Int(v as i64))
    }

    /// Encodes a 32-bit or narrower unsigned integer: always a number.
    pub fn serialize_u32(&self, v: u32) -> (r: HostValue)
        ensures
            r == HostValue::Number(Num::Int(v as i64)),
    {
        HostValue::Number(Num::Int(v as i64))
    }

    /// Encodes a signed 64-bit integer.
    pub fn serialize_i64(&self, v: i64) -> (r: Result<HostValue, Error>)
        ensures
            r == enc_int(*self, v as int),
    {
        if self.serialize_large_number_types_as_bigints {
            let negative = v < 0;
            let magnitude: u128 = if negative {
                (-(v as i128)) as u128
            } else {
                v as u128
            };
            Ok(HostValue::BigInt(negative, magnitude))
        } else if -MAX_SAFE_INTEGER <= v && v <= MAX_SAFE_INTEGER {
            Ok(HostValue::Number(Num::Int(v)))
        } else {
            Err(Error::UnrepresentableInteger)
        }
    }

    /// Encodes an unsigned 64-bit integer.
    pub fn serialize_u64(&self, v: u64) -> (r: Result<HostValue, Error>)
        ensures
            r == enc_int(*self, v as int),
    {
        if self.serialize_large_number_types_as_bigints {
            Ok(HostValue::BigInt(false, v as u128))
        } else if v <= MAX_SAFE_INTEGER as u64 {
            Ok(HostValue::Number(Num::Int(v as i64)))
        } else {
            Err(Error::UnrepresentableInteger)
        }
    }

    /// Encodes a signed 128-bit integer.
    pub fn serialize_i128(&self, v: i128) -> (r: Result<HostValue, Error>)
        ensures
            r == enc_int(*self, v as int),
    {
        if self.serialize_large_number_types_as_bigints {
            let negative = v < 0;
            let magnitude: u128 = if negative {
                ((-(v + 1)) as u128) + 1
            } else {
                v as u128
            };
            Ok(HostValue::BigInt(negative, magnitude))
        } else if -(MAX_SAFE_INTEGER as i128) <= v && v <= MAX_SAFE_INTEGER as i128 {
            Ok(HostValue::Number(Num::Int(v as i64)))
        } else {
            Err(Error::UnrepresentableInteger)
        }
    }

    /// Encodes an unsigned 128-bit integer.
    pub fn serialize_u128(&self, v: u128) -> (r: Result<HostValue, Error>)
        ensures
            r == enc_int(*self, v as int),
    {
        if self.serialize_large_number_types_as_bigints {
            Ok(HostValue::BigInt(false, v))
        } else if v <= MAX_SAFE_INTEGER as u128 {
            Ok(HostValue::Number(Num::Int(v as i64)))
        } else {
            Err(Error::UnrepresentableInteger)
        }
    }

    /// Encodes a character as a one-character string.
    pub fn serialize_char(&self, c: char) -> (r: HostValue)
        ensures
            r is Str,
            r->Str_0@ == seq![c],
    {
        HostValue::Str(string_of_char(c))
    }

    /// Encodes bytes as a newly allocated byte buffer holding a copy of them.
    pub fn serialize_bytes(&self, b: &Vec<u8>) -> (r: HostValue)
        ensures
            r is Bytes,
            r->Bytes_0@ == b@,
    {
        let mut copy: Vec<u8> = Vec::with_capacity(b.len());
        let mut i: usize = 0;
        while i < b.len()
            invariant
                0 <= i <= b@.len(),
                copy@ == b@.subrange(0, i as int),
            decreases b@.len() - i,
        {
            copy.push(b[i]);
            i += 1;
        }
        assert(copy@ == b@);
        HostValue::Bytes(copy)
    }

    /// Encodes `d` depth-first; the first error met aborts the call.
    pub fn serialize(&self, d: &Data) -> (r: Result<HostValue, Error>)
        ensures
            enc_result(*d, *self, r),
        decreases d, 1int,
    {
        match d {
            Data::Unit => Ok(HostValue::Undefined),
            Data::Bool(b) => Ok(HostValue::Bool(*b)),
            Data::I32(n) => Ok(self.serialize_i32(*n)),
            Data::U32(n) => Ok(self.serialize_u32(*n)),
            Data::I64(n) => self.serialize_i64(*n),
            Data::U64(n) => self.serialize_u64(*n),
            Data::I128(n) => self.serialize_i128(*n),
            Data::U128(n) => self.serialize_u128(*n),
            Data::Float(x) => Ok(HostValue::Number(*x)),
            Data::Char(c) => Ok(self.serialize_char(*c)),
            Data::Str(s) => Ok(HostValue::Str(s.clone())),
            Data::Bytes(b) => Ok(self.serialize_bytes(b)),
            Data::Absent => Ok(HostValue::Undefined),
            Data::Present(x) => self.serialize(x),
            Data::UnitVariant(name) => Ok(HostValue::Str(name.clone())),
            Data::NewtypeVariant(name, x) => match self.serialize(x) {
                Ok(p) => Ok(wrap_variant(name, p)),
                Err(e) => Err(e),
            },
            Data::List(xs) => match self.serialize_elements(xs, Ghost(*d)) {
                Ok(items) => Ok(HostValue::Array(items)),
                Err(e) => Err(e),
            },
            Data::TupleVariant(name, xs) => match self.serialize_elements(xs, Ghost(*d)) {
                Ok(items) => Ok(wrap_variant(name, HostValue::Array(items))),
                Err(e) => Err(e),
            },
            Data::Dict(es) => self.serialize_entries(es, Ghost(*d)),
            Data::Struct(fs) => self.serialize_fields(fs, Ghost(*d)),
            Data::StructVariant(name, fs) => match self.serialize_fields(fs, Ghost(*d)) {
                Ok(o) => Ok(wrap_variant(name, o)),
                Err(e) => Err(e),
            },
        }
    }

    /// Encodes the elements of a sequence or of a tuple variant, in order.
    fn serialize_elements(&self, xs: &Vec<Data>, Ghost(parent): Ghost<Data>) -> (r: Result<Vec<HostValue>, Error>)
        requires
            parent == Data::List(*xs) || (parent is TupleVariant && parent->TupleVariant_1 == *xs),
        ensures
            match r {
                Ok(items) => {
                    &&& enc_err(parent, *self) is None
                    &&& items@.len() == xs@.len()
                    &&& forall|i: int| 0 <= i < xs@.len() ==> enc_rel(#[trigger] xs@[i], *self, items@[i])
                },
                Err(e) => enc_err(parent, *self) == Some(e),
            },
        decreases parent, 0int,
    {
        let ghost cfg = *self;
        assert(xs@.subrange(0, xs@.len() as int) =~= xs@);
        let mut items: Vec<HostValue> = Vec::new();
        let mut i: usize = 0;
        while i < xs.len()
            invariant
                0 <= i <= xs@.len(),
                items@.len() == i,
                cfg == *self,
                parent == Data::List(*xs) || (parent is TupleVariant && parent->TupleVariant_1 == *xs),
                enc_err(parent, cfg) == elems_err(xs@.subrange(i as int, xs@.len() as int), cfg),
                forall|j: int| 0 <= j < i ==> enc_rel(#[trigger] xs@[j], cfg, items@[j]),
            decreases xs@.len() - i,
        {
            proof {
                vstd::std_specs::vec::axiom_vec_index_decreases(*xs, i as int);
                if parent is List {
                    assert(decreases_to!(parent => parent->List_0));
                } else {
                    assert(decreases_to!(parent => parent->TupleVariant_1));
                }
            }
            proof {
                let rest = xs@.subrange(i as int, xs@.len() as int);
                assert(rest[0] == xs@[i as int]);
                assert(rest.drop_first() =~= xs@.subrange(i + 1, xs@.len() as int));
            }
            match self.serialize(&xs[i]) {
                Ok(v) => items.push(v),
                Err(e) => return Err(e),
            }
            i += 1;
        }
        Ok(items)
    }

    /// Encodes the entries of a map: a plain object whose keys must encode to
    /// strings, or a native map, as the settings say.
    fn serialize_entries(&self, es: &Vec<(Data, Data)>, Ghost(parent): Ghost<Data>) -> (r: Result<HostValue, Error>)
        requires
            parent == Data::Dict(*es),
        ensures
            enc_result(parent, *self, r),
        decreases parent, 0int,
    {
        let ghost cfg = *self;
        assert(es@.subrange(0, es@.len() as int) =~= es@);
        let as_object = self.serialize_maps_as_objects;
        let mut fields: Vec<(String, HostValue)> = Vec::new();
        let mut pairs: Vec<HostValue> = Vec::new();
        let mut i: usize = 0;
        while i < es.len()
            invariant
                0 <= i <= es@.len(),
                cfg == *self,
                as_object == cfg.serialize_maps_as_objects,
                parent == Data::Dict(*es),
                enc_err(parent, cfg) == entries_err(es@.subrange(i as int, es@.len() as int), cfg),
                as_object ==> fields@.len() == i,
                !as_object ==> pairs@.len() == i,
                forall|j: int|
                    0 <= j < i ==> {
                        &&& as_object ==> enc_rel((#[trigger] es@[j]).0, cfg, HostValue::Str(fields@[j].0))
                        &&& as_object ==> enc_rel(es@[j].1, cfg, fields@[j].1)
                        &&& !as_object ==> is_pair(pairs@[j])
                        &&& !as_object ==> enc_rel(es@[j].0, cfg, pair_key(pairs@[j]))
                        &&& !as_object ==> enc_rel(es@[j].1, cfg, pair_value(pairs@[j]))
                    },
            decreases es@.len() - i,
        {
            proof {
                vstd::std_specs::vec::axiom_vec_index_decreases(*es, i as int);
                assert(decreases_to!(parent => parent->Dict_0));
            }
            proof {
                let rest = es@.subrange(i as int, es@.len() as int);
                assert(rest[0] == es@[i as int]);
                assert(rest.drop_first() =~= es@.subrange(i + 1, es@.len() as int));
            }
            let entry = &es[i];
            let key = match self.serialize(&entry.0) {
                Ok(k) => k,
                Err(e) => return Err(e),
            };
            proof {
                lemma_string_key(es@[i as int].0, cfg, key);
            }
            if as_object {
                let name = match key {
                    HostValue::Str(name) => name,
                    _ => return Err(Error::NonStringMapKey),
                };
                let value = match self.serialize(&entry.1) {
                    Ok(v) => v,
                    Err(e) => return Err(e),
                };
                fields.push((name, value));
            } else {
                let value = match self.serialize(&entry.1) {
                    Ok(v) => v,
                    Err(e) => return Err(e),
                };
                let ghost gk = key;
                let ghost gv = value;
                let ghost old_pairs = pairs@;
                let pair = pair_array(key, value);
                pairs.push(pair);
                assert forall|j: int| 0 <= j < i implies is_pair(#[trigger] pairs@[j]) by {
                    let e = es@[j];
                    assert(pairs@[j] == old_pairs[j]);
                }
            }
            i += 1;
        }
        if as_object {
            Ok(HostValue::Object(fields))
        } else {
            assert forall|j: int|
                #![trigger es@[j]]
                #![trigger pairs@[j]]
                0 <= j < es@.len() implies {
                &&& is_pair(pairs@[j])
                &&& enc_rel(es@[j].0, cfg, pair_key(pairs@[j]))
                &&& enc_rel(es@[j].1, cfg, pair_value(pairs@[j]))
            } by {
                let e = es@[j];
            }
            Ok(HostValue::NativeMap(pairs))
        }
    }

    /// Encodes the fields of a struct or of a struct variant as a plain object.
    fn serialize_fields(&self, fs: &Vec<(String, Data)>, Ghost(parent): Ghost<Data>) -> (r: Result<HostValue, Error>)
        requires
            parent == Data::Struct(*fs) || (parent is StructVariant && parent->StructVariant_1 == *fs),
        ensures
            match r {
                Ok(o) => {
                    &&& enc_err(parent, *self) is None
                    &&& o is Object
                    &&& o->Object_0@.len() == fs@.len()
                    &&& forall|i: int|
                        0 <= i < fs@.len() ==> {
                            &&& o->Object_0@[i].0@ == (#[trigger] fs@[i]).0@
                            &&& enc_rel(fs@[i].1, *self, o->Object_0@[i].1)
                        }
                },
                Err(e) => enc_err(parent, *self) == Some(e),
            },
        decreases parent, 0int,
    {
        let ghost cfg = *self;
        assert(fs@.subrange(0, fs@.len() as int) =~= fs@);
        let mut fields: Vec<(String, HostValue)> = Vec::new();
        let mut i: usize = 0;
        while i < fs.len()
            invariant
                0 <= i <= fs@.len(),
                fields@.len() == i,
                cfg == *self,
                parent == Data::Struct(*fs) || (parent is StructVariant && parent->StructVariant_1 == *fs),
                enc_err(parent, cfg) == fields_err(fs@.subrange(i as int, fs@.len() as int), cfg),
                forall|j: int|
                    0 <= j < i ==> {
                        &&& fields@[j].0@ == (#[trigger] fs@[j]).0@
                        &&& enc_rel(fs@[j].1, cfg, fields@[j].1)
                    },
            decreases fs@.len() - i,
        {
            proof {
                vstd::std_specs::vec::axiom_vec_index_decreases(*fs, i as int);
                if parent is Struct {
                    assert(decreases_to!(parent => parent->Struct_0));
                } else {
                    assert(decreases_to!(parent => parent->StructVariant_1));
                }
            }
            proof {
                let rest = fs@.subrange(i as int, fs@.len() as int);
                assert(rest[0] == fs@[i as int]);
                assert(rest.drop_first() =~= fs@.subrange(i + 1, fs@.len() as int));
            }
            let field = &fs[i];
            match self.serialize(&field.1) {
                Ok(v) => fields.push((field.0.clone(), v)),
                Err(e) => return Err(e),
            }
            i += 1;
        }
        Ok(HostValue::Object(fields))
    }
}

/// An encoded key is a host string exactly when the key encodes to a string.
proof fn lemma_string_key(k: Data, cfg: Serializer, v: HostValue)
    requires
        enc_err(k, cfg) is None,
        enc_rel(k, cfg, v),
    ensures
        v is Str <==> encodes_to_string(k),
    decreases k,
{
    if let Data::Present(x) = k {
        lemma_string_key(*x, cfg, v);
    }
}

} // verus!
