//! Laws that relate the encoder and the decoder.
use vstd::prelude::*;
use crate::de::{
    Shape, VariantShape, dec_err, dec_rel, items_err, positions_err, item_pairs_err, props_err, fields_err,
    fields_rel, variant_err, variant_rel, variant_index, lookup, field_value, key_shape,
    value_shape, int_request, char_request,
};
use crate::error::Error;
use crate::ser::{Serializer, enc_err, enc_rel, elems_err, entries_err, fields_err as enc_fields_err};
use crate::value::{Data, HostValue, Num, is_safe_int, big_host, big_value, abs};
use crate::de::slot;
use crate::json::{json_data, json_host, data_items, data_entries, data_fields, host_items, host_members, key_string, stringify, is_numeral};
use crate::ser::encodes_to_string;

verus! {

/// Whether `d` encodes to `undefined` or `null`.
pub open spec fn encodes_nullish(d: Data) -> bool
    decreases d,
{
    match d {
        Data::Unit => true,
        Data::Absent => true,
        Data::Present(x) => encodes_nullish(*x),
        _ => false,
    }
}

/// The names of `fs` are pairwise distinct.
pub open spec fn distinct_names(fs: Seq<(String, Shape)>) -> bool {
    forall|i: int, j: int| 0 <= i < j < fs.len() ==> (#[trigger] fs[i]).0@ != (#[trigger] fs[j]).0@
}

/// `ds` is a value of the struct whose fields are `fs`: the same names in
/// the same order, each value of its field's type.
pub open spec fn fields_conform(ds: Seq<(String, Data)>, fs: Seq<(String, Shape)>) -> bool
    decreases fs,
{
    &&& distinct_names(fs)
    &&& ds.len() == fs.len()
    &&& forall|i: int|
        0 <= i < fs.len() ==> {
            &&& ds[i].0@ == (#[trigger] fs[i]).0@
            &&& conforms(ds[i].1, fs[i].1)
        }
}

/// `d` is a value of the type that the shape `s` describes.
///
/// An option's present value must not itself encode to `undefined` or
/// `null` (`Some(None)`, `Some(())`): both sides of such an option meet in
/// the same host value. A value requested as `Any` is a unit, a boolean, a
/// number that is not a safe integer, a string, or a sequence of such
/// values. A value of an untagged enum is a value of one variant's
/// payload type whose encodings no earlier variant accepts.
pub open spec fn conforms(d: Data, s: Shape) -> bool
    decreases s, d,
{
    match s {
        Shape::Ignore => d is Unit,
        Shape::Any => match d {
            Data::Unit => true,
            Data::Bool(_) => true,
            Data::Float(x) => HostValue::Number(x).spec_as_safe_integer() is None,
            Data::Str(_) => true,
            Data::List(xs) => forall|i: int| 0 <= i < xs@.len() ==> conforms(#[trigger] xs@[i], s),
            _ => false,
        },
        Shape::Unit => d is Unit,
        Shape::Bool => d is Bool,
        Shape::I32 => d is I32,
        Shape::U32 => d is U32,
        Shape::I64 => d is I64,
        Shape::U64 => d is U64,
        Shape::I128 => d is I128,
        Shape::U128 => d is U128,
        Shape::Float => d is Float,
        Shape::Str => d is Str,
        Shape::Char => d is Char,
        Shape::Bytes => d is Bytes,
        Shape::Optional(inner) => match d {
            Data::Absent => true,
            Data::Present(x) => !encodes_nullish(*x) && conforms(*x, *inner),
            _ => false,
        },
        Shape::Sequence(elem) => match d {
            Data::List(xs) => forall|i: int| 0 <= i < xs@.len() ==> conforms(#[trigger] xs@[i], *elem),
            _ => false,
        },
        Shape::Tuple(ss) => match d {
            Data::List(xs) => xs@.len() == ss@.len() && forall|i: int|
                0 <= i < ss@.len() ==> conforms(xs@[i], #[trigger] ss@[i]),
            _ => false,
        },
        Shape::Dict(ks, vs) => match d {
            Data::Dict(es) => forall|i: int|
                0 <= i < es@.len() ==> conforms((#[trigger] es@[i]).0, *ks) && conforms(es@[i].1, *vs),
            _ => false,
        },
        Shape::Struct(fs) => match d {
            Data::Struct(ds) => fields_conform(ds@, fs@),
            _ => false,
        },
        Shape::Enum(vs) => {
            let tag = match d {
                Data::UnitVariant(n) => n@,
                Data::NewtypeVariant(n, _) => n@,
                Data::TupleVariant(n, _) => n@,
                Data::StructVariant(n, _) => n@,
                _ => Seq::empty(),
            };
            let i = variant_index(vs@, tag);
            &&& 0 <= i < vs@.len()
            &&& variant_conforms(d, vs@[i].1)
        },
        Shape::Untagged(ss) => exists|i: int|
            0 <= i < ss@.len() && conforms(d, #[trigger] ss@[i]) && forall|j: int, cfg: Serializer, v: HostValue|
                #![trigger enc_rel(d, cfg, v), dec_err(v, ss@[j])]
                0 <= j < i && enc_rel(d, cfg, v) ==> dec_err(v, ss@[j]) is Some,
    }
}

/// `d` is a value of an enum variant whose payload shape is `vs`.
pub open spec fn variant_conforms(d: Data, vs: VariantShape) -> bool
    decreases vs, d,
{
    match vs {
        VariantShape::Unit => d is UnitVariant,
        VariantShape::Newtype(s) => match d {
            Data::NewtypeVariant(_, x) => conforms(*x, *s),
            _ => false,
        },
        VariantShape::Tuple(ss) => match d {
            Data::TupleVariant(_, xs) => xs@.len() == ss@.len() && forall|i: int|
                0 <= i < ss@.len() ==> conforms(xs@[i], #[trigger] ss@[i]),
            _ => false,
        },
        VariantShape::Struct(fs) => match d {
            Data::StructVariant(_, ds) => fields_conform(ds@, fs@),
            _ => false,
        },
    }
}

/// Every element of a sequence whose encoding meets no error encodes.
proof fn lemma_elems_encode(xs: Seq<Data>, cfg: Serializer)
    requires
        elems_err(xs, cfg) is None,
    ensures
        forall|i: int| 0 <= i < xs.len() ==> enc_err(#[trigger] xs[i], cfg) is None,
    decreases xs.len(),
{
    if xs.len() > 0 {
        lemma_elems_encode(xs.drop_first(), cfg);
        assert forall|i: int| 0 <= i < xs.len() implies enc_err(#[trigger] xs[i], cfg) is None by {
            if i > 0 {
                assert(xs[i] == xs.drop_first()[i - 1]);
            }
        }
    }
}

/// Every entry of a map whose encoding meets no error encodes, and its key
/// encodes to a string where maps become plain objects.
proof fn lemma_entries_encode(es: Seq<(Data, Data)>, cfg: Serializer)
    requires
        entries_err(es, cfg) is None,
    ensures
        forall|i: int|
            0 <= i < es.len() ==> {
                &&& enc_err((#[trigger] es[i]).0, cfg) is None
                &&& enc_err(es[i].1, cfg) is None
                &&& cfg.serialize_maps_as_objects ==> crate::ser::encodes_to_string(es[i].0)
            },
    decreases es.len(),
{
    if es.len() > 0 {
        lemma_entries_encode(es.drop_first(), cfg);
        assert forall|i: int| 0 <= i < es.len() implies {
            &&& enc_err((#[trigger] es[i]).0, cfg) is None
            &&& enc_err(es[i].1, cfg) is None
            &&& cfg.serialize_maps_as_objects ==> crate::ser::encodes_to_string(es[i].0)
        } by {
            if i > 0 {
                assert(es[i] == es.drop_first()[i - 1]);
            }
        }
    }
}

/// Every field value of a struct whose encoding meets no error encodes.
proof fn lemma_fields_encode(fs: Seq<(String, Data)>, cfg: Serializer)
    requires
        enc_fields_err(fs, cfg) is None,
    ensures
        forall|i: int| 0 <= i < fs.len() ==> enc_err((#[trigger] fs[i]).1, cfg) is None,
    decreases fs.len(),
{
    if fs.len() > 0 {
        lemma_fields_encode(fs.drop_first(), cfg);
        assert forall|i: int| 0 <= i < fs.len() implies enc_err((#[trigger] fs[i]).1, cfg) is None by {
            if i > 0 {
                assert(fs[i] == fs.drop_first()[i - 1]);
            }
        }
    }
}

/// Items that each decode make a sequence that decodes.
proof fn lemma_items_decode(items: Seq<HostValue>, s: Shape)
    requires
        forall|i: int| 0 <= i < items.len() ==> dec_err(#[trigger] items[i], s) is None,
    ensures
        items_err(items, s) is None,
    decreases items.len(),
{
    if items.len() > 0 {
        assert(dec_err(items[0], s) is None);
        assert forall|i: int| 0 <= i < items.drop_first().len() implies dec_err(
            #[trigger] items.drop_first()[i],
            s,
        ) is None by {
            assert(items.drop_first()[i] == items[i + 1]);
        }
        lemma_items_decode(items.drop_first(), s);
    }
}

/// Items that each decode as their position's shape make a tuple that decodes.
proof fn lemma_positions_decode(items: Seq<HostValue>, ss: Seq<Shape>)
    requires
        items.len() >= ss.len(),
        forall|i: int| 0 <= i < ss.len() ==> dec_err(items[i], #[trigger] ss[i]) is None,
    ensures
        positions_err(items, ss) is None,
    decreases ss.len(),
{
    if ss.len() > 0 {
        assert(dec_err(items[0], ss[0]) is None);
        assert forall|i: int| 0 <= i < ss.drop_first().len() implies dec_err(
            items.drop_first()[i],
            #[trigger] ss.drop_first()[i],
        ) is None by {
            assert(items.drop_first()[i] == items[i + 1]);
            assert(ss.drop_first()[i] == ss[i + 1]);
        }
        lemma_positions_decode(items.drop_first(), ss.drop_first());
    }
}

/// Native map entries, each a `[key, value]` array whose key and value
/// decode, make a map that decodes.
proof fn lemma_item_pairs_decode(ps: Seq<HostValue>, s: Shape)
    requires
        s is Dict,
        forall|i: int|
            0 <= i < ps.len() ==> {
                &&& (#[trigger] ps[i]) is Array
                &&& dec_err(slot(ps[i]->Array_0@, 0), key_shape(s)) is None
                &&& dec_err(slot(ps[i]->Array_0@, 1), value_shape(s)) is None
            },
    ensures
        item_pairs_err(ps, s) is None,
    decreases ps.len(),
{
    if ps.len() > 0 {
        assert(ps[0] is Array);
        assert forall|i: int| 0 <= i < ps.drop_first().len() implies {
            &&& (#[trigger] ps.drop_first()[i]) is Array
            &&& dec_err(slot(ps.drop_first()[i]->Array_0@, 0), key_shape(s)) is None
            &&& dec_err(slot(ps.drop_first()[i]->Array_0@, 1), value_shape(s)) is None
        } by {
            assert(ps.drop_first()[i] == ps[i + 1]);
        }
        lemma_item_pairs_decode(ps.drop_first(), s);
    }
}

/// Object properties whose names and values each decode make a map that
/// decodes.
proof fn lemma_props_decode(o: Seq<(String, HostValue)>, s: Shape)
    requires
        s is Dict,
        forall|i: int|
            0 <= i < o.len() ==> dec_err(HostValue::Str((#[trigger] o[i]).0), key_shape(s)) is None && dec_err(
                o[i].1,
                value_shape(s),
            ) is None,
    ensures
        props_err(o, s) is None,
    decreases o.len(),
{
    if o.len() > 0 {
        assert(dec_err(HostValue::Str(o[0].0), key_shape(s)) is None);
        assert forall|i: int| 0 <= i < o.drop_first().len() implies dec_err(
            HostValue::Str((#[trigger] o.drop_first()[i]).0),
            key_shape(s),
        ) is None && dec_err(o.drop_first()[i].1, value_shape(s)) is None by {
            assert(o.drop_first()[i] == o[i + 1]);
        }
        lemma_props_decode(o.drop_first(), s);
    }
}

/// Fields that each decode from the object make a struct that decodes.
proof fn lemma_fields_decode(o: Seq<(String, HostValue)>, fs: Seq<(String, Shape)>)
    requires
        forall|i: int| 0 <= i < fs.len() ==> dec_err(field_value(o, (#[trigger] fs[i]).0@), fs[i].1) is None,
    ensures
        fields_err(o, fs) is None,
    decreases fs.len(),
{
    if fs.len() > 0 {
        assert(dec_err(field_value(o, fs[0].0@), fs[0].1) is None);
        assert forall|i: int| 0 <= i < fs.drop_first().len() implies dec_err(
            field_value(o, (#[trigger] fs.drop_first()[i]).0@),
            fs.drop_first()[i].1,
        ) is None by {
            assert(fs.drop_first()[i] == fs[i + 1]);
        }
        lemma_fields_decode(o, fs.drop_first());
    }
}

/// The first property named `name` is the one at `i` where no earlier
/// property has that name.
proof fn lemma_lookup_at(o: Seq<(String, HostValue)>, name: Seq<char>, i: int)
    requires
        0 <= i < o.len(),
        o[i].0@ == name,
        forall|j: int| 0 <= j < i ==> (#[trigger] o[j]).0@ != name,
    ensures
        lookup(o, name) == Some(o[i].1),
    decreases i,
{
    if i > 0 {
        assert(o[0].0@ != name);
        assert forall|j: int| 0 <= j < i - 1 implies (#[trigger] o.drop_first()[j]).0@ != name by {
            assert(o.drop_first()[j] == o[j + 1]);
        }
        lemma_lookup_at(o.drop_first(), name, i - 1);
    }
}

/// Struct fields encoded in order decode back, by name, to the same fields.
proof fn lemma_fields_round_trip(
    ds: Seq<(String, Data)>,
    fs: Seq<(String, Shape)>,
    cfg: Serializer,
    o: Seq<(String, HostValue)>,
    ps: Shape,
    pd: Data,
)
    requires
        fields_conform(ds, fs),
        forall|i: int| 0 <= i < ds.len() ==> enc_err((#[trigger] ds[i]).1, cfg) is None,
        o.len() == ds.len(),
        forall|i: int|
            0 <= i < ds.len() ==> {
                &&& o[i].0@ == (#[trigger] ds[i]).0@
                &&& enc_rel(ds[i].1, cfg, o[i].1)
            },
        decreases_to!(ps => fs),
        forall|i: int| 0 <= i < ds.len() ==> decreases_to!(pd => ds[i]),
    ensures
        fields_err(o, fs) is None,
        fields_rel(o, fs, ds),
    decreases ps, pd, 0int,
{
    assert forall|i: int| 0 <= i < fs.len() implies {
        &&& field_value(o, (#[trigger] fs[i]).0@) == o[i].1
        &&& dec_err(o[i].1, fs[i].1) is None
        &&& dec_rel(o[i].1, fs[i].1, ds[i].1)
    } by {
        assert(ds[i].0@ == fs[i].0@);
        assert forall|j: int| 0 <= j < i implies (#[trigger] o[j]).0@ != fs[i].0@ by {
            assert(o[j].0@ == ds[j].0@);
            assert(ds[j].0@ == fs[j].0@);
            assert(fs[j].0@ != fs[i].0@);
        }
        lemma_lookup_at(o, fs[i].0@, i);
        assert(conforms(ds[i].1, fs[i].1));
        assert(decreases_to!(fs => fs[i]));
        assert(decreases_to!(fs[i] => fs[i].1));
        lemma_round_trip(ds[i].1, fs[i].1, cfg, o[i].1);
    }
    lemma_fields_decode(o, fs);
}

/// The first shape that accepts `v` is the one at `i` where every shape
/// before it refuses `v`.
proof fn lemma_untagged_first(v: HostValue, ss: Seq<Shape>, i: int)
    requires
        0 <= i < ss.len(),
        dec_err(v, ss[i]) is None,
        forall|j: int| 0 <= j < i ==> dec_err(v, #[trigger] ss[j]) is Some,
    ensures
        crate::de::untagged_index(v, ss) == i,
    decreases i,
{
    if i > 0 {
        assert(dec_err(v, ss[0]) is Some);
        assert(ss.drop_first()[i - 1] == ss[i]);
        assert forall|j: int| 0 <= j < i - 1 implies dec_err(v, #[trigger] ss.drop_first()[j]) is Some by {
            assert(ss.drop_first()[j] == ss[j + 1]);
        }
        lemma_untagged_first(v, ss.drop_first(), i - 1);
    }
}

/// A value that does not encode to `undefined` or `null` encodes to a value
/// that is neither.
proof fn lemma_not_nullish(d: Data, cfg: Serializer, v: HostValue)
    requires
        !encodes_nullish(d),
        enc_rel(d, cfg, v),
    ensures
        !(v is Undefined || v is Null),
    decreases d,
{
    if let Data::Present(x) = d {
        lemma_not_nullish(*x, cfg, v);
    }
}

/// An integer encoded by either route decodes back through an integer
/// request whose range holds it.
proof fn lemma_int_round_trip(n: int, lo: int, hi: int, cfg: Serializer, v: HostValue)
    requires
        lo <= n <= hi,
        -0x1_0000_0000_0000_0000_0000_0000_0000_0000 < n < 0x1_0000_0000_0000_0000_0000_0000_0000_0000,
        crate::ser::enc_int(cfg, n) == Ok::<HostValue, Error>(v),
    ensures
        int_request(v, lo, hi) == Ok::<int, Error>(n),
{
    if cfg.serialize_large_number_types_as_bigints {
        assert(big_value(n < 0, abs(n) as u128) == n);
    }
}

/// The payload of an enum variant encoded in order decodes back to the
/// same variant.
proof fn lemma_variant_round_trip(d: Data, vsh: VariantShape, cfg: Serializer, p: HostValue, tag: Seq<char>, ps: Shape)
    requires
        variant_conforms(d, vsh),
        !(vsh is Unit),
        enc_err(d, cfg) is None,
        match d {
            Data::NewtypeVariant(n, x) => n@ == tag && enc_rel(*x, cfg, p),
            Data::TupleVariant(n, xs) => {
                &&& n@ == tag
                &&& p is Array
                &&& p->Array_0@.len() == xs@.len()
                &&& forall|i: int| 0 <= i < xs@.len() ==> enc_rel(#[trigger] xs@[i], cfg, p->Array_0@[i])
            },
            Data::StructVariant(n, fs) => {
                &&& n@ == tag
                &&& p is Object
                &&& p->Object_0@.len() == fs@.len()
                &&& forall|i: int|
                    0 <= i < fs@.len() ==> {
                        &&& p->Object_0@[i].0@ == (#[trigger] fs@[i]).0@
                        &&& enc_rel(fs@[i].1, cfg, p->Object_0@[i].1)
                    }
            },
            _ => false,
        },
        decreases_to!(ps => vsh),
    ensures
        variant_err(p, vsh) is None,
        variant_rel(p, vsh, tag, d),
    decreases ps, d, 1int,
{
    match vsh {
        VariantShape::Unit => {},
        VariantShape::Newtype(inner) => {
            let x = *d->NewtypeVariant_1;
            assert(decreases_to!(vsh => inner));
            lemma_round_trip(x, *inner, cfg, p);
        },
        VariantShape::Tuple(ss) => {
            let xs = d->TupleVariant_1;
            let a = p->Array_0@;
            lemma_elems_encode(xs@, cfg);
            assert forall|i: int| 0 <= i < ss@.len() implies dec_err(a[i], #[trigger] ss@[i]) is None && dec_rel(
                a[i],
                ss@[i],
                xs@[i],
            ) by {
                vstd::std_specs::vec::axiom_vec_index_decreases(ss, i);
                assert(decreases_to!(vsh => ss));
                assert(enc_rel(xs@[i], cfg, a[i]));
                lemma_round_trip(xs@[i], ss@[i], cfg, a[i]);
            }
            lemma_positions_decode(a, ss@);
        },
        VariantShape::Struct(fs) => {
            let ds = d->StructVariant_1;
            let o = p->Object_0@;
            lemma_fields_encode(ds@, cfg);
            assert(decreases_to!(vsh => fs));
            assert forall|i: int| 0 <= i < ds@.len() implies decreases_to!(d => ds@[i]) by {
                vstd::std_specs::vec::axiom_vec_index_decreases(ds, i);
                assert(decreases_to!(d => d->StructVariant_1));
            }
            lemma_fields_round_trip(ds@, fs@, cfg, o, ps, d);
        },
    }
}

/// Encoding then decoding gives back the data: for typed data `d` of the
/// type that `s` describes, whose encoding `v` under any settings meets no
/// error, decoding `v` as `s` succeeds and yields `d` itself.
pub proof fn lemma_round_trip(d: Data, s: Shape, cfg: Serializer, v: HostValue)
    requires
        conforms(d, s),
        enc_err(d, cfg) is None,
        enc_rel(d, cfg, v),
    ensures
        dec_err(v, s) is None,
        dec_rel(v, s, d),
    decreases s, d, 2int,
{
    match s {
        Shape::Any => {
            if let Data::List(xs) = d {
                let a = v->Array_0@;
                lemma_elems_encode(xs@, cfg);
                assert forall|i: int| 0 <= i < a.len() implies dec_err(#[trigger] a[i], s) is None && dec_rel(
                    a[i],
                    s,
                    xs@[i],
                ) by {
                    vstd::std_specs::vec::axiom_vec_index_decreases(xs, i);
                    assert(decreases_to!(d => d->List_0));
                    lemma_round_trip(xs@[i], s, cfg, a[i]);
                }
                lemma_items_decode(a, s);
            }
        },
        Shape::I32 => {
            assert(int_request(v, i32::MIN as int, i32::MAX as int) == Ok::<int, Error>(d->I32_0 as int));
        },
        Shape::U32 => {
            assert(int_request(v, 0, u32::MAX as int) == Ok::<int, Error>(d->U32_0 as int));
        },
        Shape::I64 => {
            lemma_int_round_trip(d->I64_0 as int, i64::MIN as int, i64::MAX as int, cfg, v);
        },
        Shape::U64 => {
            lemma_int_round_trip(d->U64_0 as int, 0, u64::MAX as int, cfg, v);
        },
        Shape::I128 => {
            lemma_int_round_trip(d->I128_0 as int, i128::MIN as int, i128::MAX as int, cfg, v);
        },
        Shape::U128 => {
            lemma_int_round_trip(d->U128_0 as int, 0, u128::MAX as int, cfg, v);
        },
        Shape::Char => {
            assert(char_request(v) == Ok::<char, Error>(d->Char_0));
        },
        Shape::Optional(inner) => {
            if let Data::Present(x) = d {
                lemma_not_nullish(*x, cfg, v);
                lemma_round_trip(*x, *inner, cfg, v);
            }
        },
        Shape::Sequence(elem) => {
            let xs = d->List_0;
            let a = v->Array_0@;
            lemma_elems_encode(xs@, cfg);
            assert forall|i: int| 0 <= i < a.len() implies dec_err(#[trigger] a[i], *elem) is None && dec_rel(
                a[i],
                *elem,
                xs@[i],
            ) by {
                lemma_round_trip(xs@[i], *elem, cfg, a[i]);
            }
            lemma_items_decode(a, *elem);
        },
        Shape::Tuple(ss) => {
            let xs = d->List_0;
            let a = v->Array_0@;
            lemma_elems_encode(xs@, cfg);
            assert forall|i: int| 0 <= i < ss@.len() implies dec_err(a[i], #[trigger] ss@[i]) is None && dec_rel(
                a[i],
                ss@[i],
                xs@[i],
            ) by {
                vstd::std_specs::vec::axiom_vec_index_decreases(ss, i);
                assert(enc_rel(xs@[i], cfg, a[i]));
                lemma_round_trip(xs@[i], ss@[i], cfg, a[i]);
            }
            lemma_positions_decode(a, ss@);
        },
        Shape::Dict(ks, vs) => {
            let es = d->Dict_0;
            lemma_entries_encode(es@, cfg);
            if cfg.serialize_maps_as_objects {
                let o = v->Object_0@;
                assert forall|i: int| 0 <= i < o.len() implies {
                    &&& dec_err(HostValue::Str((#[trigger] o[i]).0), key_shape(s)) is None
                    &&& dec_err(o[i].1, value_shape(s)) is None
                    &&& dec_rel(HostValue::Str(o[i].0), *ks, es@[i].0)
                    &&& dec_rel(o[i].1, *vs, es@[i].1)
                } by {
                    assert(enc_rel(es@[i].0, cfg, HostValue::Str(o[i].0)));
                    lemma_round_trip(es@[i].0, *ks, cfg, HostValue::Str(o[i].0));
                    lemma_round_trip(es@[i].1, *vs, cfg, o[i].1);
                }
                lemma_props_decode(o, s);
            } else {
                let m = v->NativeMap_0@;
                assert forall|i: int| 0 <= i < m.len() implies {
                    &&& (#[trigger] m[i]) is Array
                    &&& dec_err(slot(m[i]->Array_0@, 0), key_shape(s)) is None
                    &&& dec_err(slot(m[i]->Array_0@, 1), value_shape(s)) is None
                    &&& dec_rel(slot(m[i]->Array_0@, 0), *ks, es@[i].0)
                    &&& dec_rel(slot(m[i]->Array_0@, 1), *vs, es@[i].1)
                } by {
                    assert(enc_rel(es@[i].0, cfg, m[i]->Array_0@[0]));
                    lemma_round_trip(es@[i].0, *ks, cfg, m[i]->Array_0@[0]);
                    lemma_round_trip(es@[i].1, *vs, cfg, m[i]->Array_0@[1]);
                }
                lemma_item_pairs_decode(m, s);
                assert(crate::de::pairs_rel(m, s, es@));
            }
        },
        Shape::Struct(fs) => {
            let ds = d->Struct_0;
            let o = v->Object_0@;
            lemma_fields_encode(ds@, cfg);
            assert forall|i: int| 0 <= i < ds@.len() implies decreases_to!(d => ds@[i]) by {
                vstd::std_specs::vec::axiom_vec_index_decreases(ds, i);
                assert(decreases_to!(d => d->Struct_0));
            }
            lemma_fields_round_trip(ds@, fs@, cfg, o, s, d);
        },
        Shape::Enum(vs) => {
            let tag = match d {
                Data::UnitVariant(n) => n@,
                Data::NewtypeVariant(n, _) => n@,
                Data::TupleVariant(n, _) => n@,
                Data::StructVariant(n, _) => n@,
                _ => Seq::empty(),
            };
            let i = variant_index(vs@, tag);
            let vsh = vs@[i].1;
            if !(vsh is Unit) {
                let o = v->Object_0@;
                assert(variant_conforms(d, vsh));
                assert(d is NewtypeVariant || d is TupleVariant || d is StructVariant);
                assert(crate::ser::is_wrapped(v, tag));
                vstd::std_specs::vec::axiom_vec_index_decreases(vs, i);
                assert(decreases_to!(s => vs));
                assert(decreases_to!(vs@[i] => vsh));
                lemma_variant_round_trip(d, vsh, cfg, o[0].1, tag, s);
            } else {
                assert(variant_conforms(d, vsh));
                assert(d is UnitVariant);
                assert(v is Str && v->Str_0@ == tag);
            }
        },
        Shape::Untagged(ss) => {
            let i = choose|i: int|
                0 <= i < ss@.len() && conforms(d, #[trigger] ss@[i]) && forall|j: int, cfg: Serializer, v: HostValue|
                    #![trigger enc_rel(d, cfg, v), dec_err(v, ss@[j])]
                    0 <= j < i && enc_rel(d, cfg, v) ==> dec_err(v, ss@[j]) is Some;
            vstd::std_specs::vec::axiom_vec_index_decreases(ss, i);
            assert(decreases_to!(s => ss));
            lemma_round_trip(d, ss@[i], cfg, v);
            assert forall|j: int| 0 <= j < i implies dec_err(v, #[trigger] ss@[j]) is Some by {
                assert(enc_rel(d, cfg, v));
            }
            lemma_untagged_first(v, ss@, i);
        },
        _ => {},
    }
}

/// Where no property after the first `n` has a name of `fs`, the named
/// fields read the same from the whole object as from its first `n`
/// properties.
proof fn lemma_lookup_prefix(o: Seq<(String, HostValue)>, n: int, name: Seq<char>)
    requires
        0 <= n <= o.len(),
        forall|j: int| n <= j < o.len() ==> (#[trigger] o[j]).0@ != name,
    ensures
        lookup(o, name) == lookup(o.subrange(0, n), name),
    decreases o.len(),
{
    if o.len() > 0 {
        if n == 0 {
            assert(o[0].0@ != name);
            assert forall|j: int| 0 <= j < o.drop_first().len() implies (#[trigger] o.drop_first()[j]).0@ != name by {
                assert(o.drop_first()[j] == o[j + 1]);
            }
            lemma_lookup_prefix(o.drop_first(), 0, name);
            assert(o.drop_first().subrange(0, 0) =~= o.subrange(0, 0));
        } else {
            assert forall|j: int| n - 1 <= j < o.drop_first().len() implies (#[trigger] o.drop_first()[j]).0@
                != name by {
                assert(o.drop_first()[j] == o[j + 1]);
            }
            lemma_lookup_prefix(o.drop_first(), n - 1, name);
            assert(o.subrange(0, n)[0] == o[0]);
            assert(o.subrange(0, n).drop_first() =~= o.drop_first().subrange(0, n - 1));
        }
    }
}

/// Fields that read the same from two objects decode the same from both.
proof fn lemma_fields_same(o1: Seq<(String, HostValue)>, o2: Seq<(String, HostValue)>, fs: Seq<(String, Shape)>)
    requires
        forall|j: int| 0 <= j < fs.len() ==> lookup(o1, (#[trigger] fs[j]).0@) == lookup(o2, fs[j].0@),
    ensures
        fields_err(o1, fs) == fields_err(o2, fs),
        forall|ds: Seq<(String, Data)>| fields_rel(o1, fs, ds) == fields_rel(o2, fs, ds),
    decreases fs.len(),
{
    if fs.len() > 0 {
        assert(lookup(o1, fs[0].0@) == lookup(o2, fs[0].0@));
        assert forall|j: int| 0 <= j < fs.drop_first().len() implies lookup(o1, (#[trigger] fs.drop_first()[j]).0@)
            == lookup(o2, fs.drop_first()[j].0@) by {
            assert(fs.drop_first()[j] == fs[j + 1]);
        }
        lemma_fields_same(o1, o2, fs.drop_first());
    }
    assert forall|ds: Seq<(String, Data)>| fields_rel(o1, fs, ds) == fields_rel(o2, fs, ds) by {
        assert forall|i: int| 0 <= i < fs.len() implies field_value(o1, (#[trigger] fs[i]).0@) == field_value(
            o2,
            fs[i].0@,
        ) by {}
    }
}

/// A struct request reads only the fields it names: a plain object that
/// holds further properties, under names the struct does not have, decodes
/// exactly as the object without them. Any other kind of value is refused
/// with a type mismatch.
pub proof fn lemma_struct_projection(o: Vec<(String, HostValue)>, wider: Vec<(String, HostValue)>, fs: Vec<(String, Shape)>, v: HostValue)
    requires
        o@ == wider@.subrange(0, o@.len() as int),
        o@.len() <= wider@.len(),
        forall|i: int, j: int|
            o@.len() <= i < wider@.len() && 0 <= j < fs@.len() ==> (#[trigger] wider@[i]).0@ != (#[trigger] fs@[j]).0@,
        !(v is Object),
    ensures
        dec_err(HostValue::Object(wider), Shape::Struct(fs)) == dec_err(HostValue::Object(o), Shape::Struct(fs)),
        forall|d: Data|
            dec_rel(HostValue::Object(wider), Shape::Struct(fs), d) == dec_rel(HostValue::Object(o), Shape::Struct(fs), d),
        dec_err(v, Shape::Struct(fs)) == Some(Error::TypeMismatch),
{
    assert forall|j: int| 0 <= j < fs@.len() implies lookup(wider@, (#[trigger] fs@[j]).0@) == lookup(o@, fs@[j].0@) by {
        assert forall|i: int| o@.len() <= i < wider@.len() implies (#[trigger] wider@[i]).0@ != fs@[j].0@ by {}
        lemma_lookup_prefix(wider@, o@.len() as int, fs@[j].0@);
    }
    lemma_fields_same(wider@, o@, fs@);
    assert forall|d: Data|
        dec_rel(HostValue::Object(wider), Shape::Struct(fs), d) == dec_rel(HostValue::Object(o), Shape::Struct(fs), d) by {
        if d is Struct {
            assert(fields_rel(wider@, fs@, d->Struct_0@) == fields_rel(o@, fs@, d->Struct_0@));
        }
    }
}

/// An enum request reads a string as a unit variant of that name, and a
/// plain object only where it has exactly one property: any other number
/// of properties is a length error that gives the number.
pub proof fn lemma_enum_shape(o: Vec<(String, HostValue)>, tag: String, vs: Vec<(String, VariantShape)>)
    requires
        0 <= variant_index(vs@, tag@) < vs@.len(),
        vs@[variant_index(vs@, tag@)].1 is Unit,
    ensures
        o@.len() != 1 ==> dec_err(HostValue::Object(o), Shape::Enum(vs)) == Some(Error::InvalidLength(o@.len() as usize)),
        dec_err(HostValue::Str(tag), Shape::Enum(vs)) is None,
        forall|d: Data|
            dec_rel(HostValue::Str(tag), Shape::Enum(vs), d) <==> (d is UnitVariant && d->UnitVariant_0@ == tag@),
{
}

/// The first entry error of a map is the one at `i` where every entry
/// before it encodes.
proof fn lemma_entries_err_at(es: Seq<(Data, Data)>, cfg: Serializer, i: int)
    requires
        0 <= i < es.len(),
        crate::ser::entry_err(enc_err(es[i].0, cfg), crate::ser::encodes_to_string(es[i].0), enc_err(es[i].1, cfg), cfg)
            is Some,
        forall|j: int|
            0 <= j < i ==> crate::ser::entry_err(
                enc_err((#[trigger] es[j]).0, cfg),
                crate::ser::encodes_to_string(es[j].0),
                enc_err(es[j].1, cfg),
                cfg,
            ) is None,
    ensures
        entries_err(es, cfg) == crate::ser::entry_err(
            enc_err(es[i].0, cfg),
            crate::ser::encodes_to_string(es[i].0),
            enc_err(es[i].1, cfg),
            cfg,
        ),
    decreases i,
{
    if i > 0 {
        assert(es.drop_first()[i - 1] == es[i]);
        assert forall|j: int| 0 <= j < i - 1 implies crate::ser::entry_err(
            enc_err((#[trigger] es.drop_first()[j]).0, cfg),
            crate::ser::encodes_to_string(es.drop_first()[j].0),
            enc_err(es.drop_first()[j].1, cfg),
            cfg,
        ) is None by {
            assert(es.drop_first()[j] == es[j + 1]);
        }
        lemma_entries_err_at(es.drop_first(), cfg, i - 1);
    }
}

/// Maps become plain objects only with string keys: where every key and
/// value encodes and the entries before `i` have string keys, a key at `i`
/// that does not encode to a string fails the whole map with
/// `NonStringMapKey`; the same map encodes as a native map whatever its
/// keys.
pub proof fn lemma_map_keys(es: Vec<(Data, Data)>, cfg: Serializer, i: int)
    requires
        0 <= i < es@.len(),
        forall|j: int| 0 <= j < es@.len() ==> enc_err((#[trigger] es@[j]).0, cfg) is None && enc_err(es@[j].1, cfg) is None,
        forall|j: int| 0 <= j < i ==> crate::ser::encodes_to_string((#[trigger] es@[j]).0),
        !crate::ser::encodes_to_string(es@[i].0),
    ensures
        cfg.serialize_maps_as_objects ==> enc_err(Data::Dict(es), cfg) == Some(Error::NonStringMapKey),
        !cfg.serialize_maps_as_objects ==> enc_err(Data::Dict(es), cfg) is None,
{
    if cfg.serialize_maps_as_objects {
        lemma_entries_err_at(es@, cfg, i);
    } else {
        lemma_entries_ok(es@, cfg);
    }
}

/// Entries that each encode make a native map that encodes.
proof fn lemma_entries_ok(es: Seq<(Data, Data)>, cfg: Serializer)
    requires
        !cfg.serialize_maps_as_objects,
        forall|j: int| 0 <= j < es.len() ==> enc_err((#[trigger] es[j]).0, cfg) is None && enc_err(es[j].1, cfg) is None,
    ensures
        entries_err(es, cfg) is None,
    decreases es.len(),
{
    if es.len() > 0 {
        assert(enc_err(es[0].0, cfg) is None);
        assert forall|j: int| 0 <= j < es.drop_first().len() implies enc_err((#[trigger] es.drop_first()[j]).0, cfg)
            is None && enc_err(es.drop_first()[j].1, cfg) is None by {
            assert(es.drop_first()[j] == es[j + 1]);
        }
        lemma_entries_ok(es.drop_first(), cfg);
    }
}

/// Values that a reference JSON encoder and the host's JSON stringifier
/// write alike once encoded: no floating-point numbers, no byte buffers,
/// integers in the safe range, map keys that encode to strings, no member of
/// an object (a struct field, a map value, a variant's payload) that encodes
/// to `undefined`, which the stringifier would leave out, and member names
/// that are distinct and do not read as numerals, since a host object keeps
/// one value per name and lists numeral names first.
pub open spec fn json_compatible(d: Data) -> bool
    decreases d,
{
    match d {
        Data::Unit | Data::Absent | Data::Bool(_) | Data::Char(_) | Data::Str(_) | Data::UnitVariant(_) => true,
        Data::I32(_) | Data::U32(_) => true,
        Data::I64(n) => is_safe_int(n as int),
        Data::U64(n) => is_safe_int(n as int),
        Data::I128(n) => is_safe_int(n as int),
        Data::U128(n) => is_safe_int(n as int),
        Data::Present(x) => json_compatible(*x),
        Data::NewtypeVariant(_, x) => json_compatible(*x) && !encodes_nullish(*x),
        Data::List(xs) => forall|i: int| 0 <= i < xs@.len() ==> json_compatible(#[trigger] xs@[i]),
        Data::TupleVariant(_, xs) => forall|i: int| 0 <= i < xs@.len() ==> json_compatible(#[trigger] xs@[i]),
        Data::Dict(es) => {
            &&& forall|i: int|
                0 <= i < es@.len() ==> {
                    &&& encodes_to_string((#[trigger] es@[i]).0)
                    &&& json_compatible(es@[i].1)
                    &&& !encodes_nullish(es@[i].1)
                    &&& !is_numeral(key_string(es@[i].0))
                }
            &&& forall|i: int, j: int|
                0 <= i < j < es@.len() ==> key_string((#[trigger] es@[i]).0) != key_string((#[trigger] es@[j]).0)
        },
        Data::Struct(fs) => fields_json_compatible(fs@),
        Data::StructVariant(_, fs) => fields_json_compatible(fs@),
        _ => false,
    }
}

/// The fields of a struct are JSON-compatible values, none encoding to
/// `undefined`, under distinct names none of which reads as a numeral.
pub open spec fn fields_json_compatible(fs: Seq<(String, Data)>) -> bool
    decreases fs,
{
    &&& forall|i: int|
        0 <= i < fs.len() ==> {
            &&& json_compatible((#[trigger] fs[i]).1)
            &&& !encodes_nullish(fs[i].1)
            &&& !is_numeral(fs[i].0@)
        }
    &&& forall|i: int, j: int| 0 <= i < j < fs.len() ==> (#[trigger] fs[i]).0@ != (#[trigger] fs[j]).0@
}

/// A key that encodes to a host string encodes to the string it stands for.
proof fn lemma_key_string(k: Data, cfg: Serializer, s: String)
    requires
        encodes_to_string(k),
        enc_rel(k, cfg, HostValue::Str(s)),
    ensures
        s@ == key_string(k),
    decreases k,
{
    if let Data::Present(x) = k {
        lemma_key_string(*x, cfg, s);
    }
}

/// Encoded sequence elements stringify as the reference encoder writes them.
proof fn lemma_json_items(xs: Seq<Data>, cfg: Serializer, a: Seq<HostValue>)
    requires
        cfg.serialize_maps_as_objects,
        !cfg.serialize_large_number_types_as_bigints,
        a.len() == xs.len(),
        forall|i: int| 0 <= i < xs.len() ==> json_compatible(#[trigger] xs[i]) && enc_rel(xs[i], cfg, a[i]),
    ensures
        host_items(a) == data_items(xs),
    decreases xs,
{
    if xs.len() > 0 {
        lemma_json(xs[0], cfg, a[0]);
        assert forall|i: int| 0 <= i < xs.drop_first().len() implies json_compatible(#[trigger] xs.drop_first()[i])
            && enc_rel(xs.drop_first()[i], cfg, a.drop_first()[i]) by {
            assert(xs.drop_first()[i] == xs[i + 1]);
        }
        lemma_json_items(xs.drop_first(), cfg, a.drop_first());
    }
}

/// Encoded struct fields stringify as the reference encoder writes them.
proof fn lemma_json_fields(fs: Seq<(String, Data)>, cfg: Serializer, o: Seq<(String, HostValue)>)
    requires
        cfg.serialize_maps_as_objects,
        !cfg.serialize_large_number_types_as_bigints,
        o.len() == fs.len(),
        forall|i: int|
            0 <= i < fs.len() ==> {
                &&& json_compatible((#[trigger] fs[i]).1)
                &&& !encodes_nullish(fs[i].1)
                &&& o[i].0@ == fs[i].0@
                &&& enc_rel(fs[i].1, cfg, o[i].1)
            },
    ensures
        host_members(o) == data_fields(fs),
    decreases fs,
{
    if fs.len() > 0 {
        lemma_json(fs[0].1, cfg, o[0].1);
        lemma_not_nullish(fs[0].1, cfg, o[0].1);
        assert forall|i: int| 0 <= i < fs.drop_first().len() implies {
            &&& json_compatible((#[trigger] fs.drop_first()[i]).1)
            &&& !encodes_nullish(fs.drop_first()[i].1)
            &&& o.drop_first()[i].0@ == fs.drop_first()[i].0@
            &&& enc_rel(fs.drop_first()[i].1, cfg, o.drop_first()[i].1)
        } by {
            assert(fs.drop_first()[i] == fs[i + 1]);
        }
        lemma_json_fields(fs.drop_first(), cfg, o.drop_first());
    }
}

/// Encoded map entries stringify as the reference encoder writes them.
proof fn lemma_json_entries(es: Seq<(Data, Data)>, cfg: Serializer, o: Seq<(String, HostValue)>)
    requires
        cfg.serialize_maps_as_objects,
        !cfg.serialize_large_number_types_as_bigints,
        o.len() == es.len(),
        forall|i: int|
            0 <= i < es.len() ==> {
                &&& encodes_to_string((#[trigger] es[i]).0)
                &&& json_compatible(es[i].1)
                &&& !encodes_nullish(es[i].1)
                &&& enc_rel(es[i].0, cfg, HostValue::Str(o[i].0))
                &&& enc_rel(es[i].1, cfg, o[i].1)
            },
    ensures
        host_members(o) == data_entries(es),
    decreases es,
{
    if es.len() > 0 {
        lemma_json(es[0].1, cfg, o[0].1);
        lemma_not_nullish(es[0].1, cfg, o[0].1);
        lemma_key_string(es[0].0, cfg, o[0].0);
        assert forall|i: int| 0 <= i < es.drop_first().len() implies {
            &&& encodes_to_string((#[trigger] es.drop_first()[i]).0)
            &&& json_compatible(es.drop_first()[i].1)
            &&& !encodes_nullish(es.drop_first()[i].1)
            &&& enc_rel(es.drop_first()[i].0, cfg, HostValue::Str(o.drop_first()[i].0))
            &&& enc_rel(es.drop_first()[i].1, cfg, o.drop_first()[i].1)
        } by {
            assert(es.drop_first()[i] == es[i + 1]);
        }
        lemma_json_entries(es.drop_first(), cfg, o.drop_first());
    }
}

/// An encoded value stringifies, wherever it stands inside an array, as the
/// reference encoder writes it.
proof fn lemma_json(d: Data, cfg: Serializer, v: HostValue)
    requires
        cfg.serialize_maps_as_objects,
        !cfg.serialize_large_number_types_as_bigints,
        json_compatible(d),
        enc_rel(d, cfg, v),
    ensures
        json_host(v) == json_data(d),
    decreases d,
{
    match d {
        Data::Present(x) => {
            lemma_json(*x, cfg, v);
        },
        Data::NewtypeVariant(_, x) => {
            lemma_json(*x, cfg, crate::ser::wrapped_payload(v));
            lemma_not_nullish(*x, cfg, crate::ser::wrapped_payload(v));
            let o = v->Object_0@;
            assert(o.drop_first().len() == 0);
            assert(o[0].1 == crate::ser::wrapped_payload(v));
            assert(host_members(o.drop_first()) == Seq::<Seq<char>>::empty());
            assert(host_members(o) =~= seq![crate::json::member(o[0].0@, json_host(o[0].1))]);
        },
        Data::List(xs) => {
            lemma_json_items(xs@, cfg, v->Array_0@);
        },
        Data::TupleVariant(_, xs) => {
            let p = crate::ser::wrapped_payload(v);
            lemma_json_items(xs@, cfg, p->Array_0@);
            let o = v->Object_0@;
            assert(o.drop_first().len() == 0);
            assert(o[0].1 == crate::ser::wrapped_payload(v));
            assert(host_members(o.drop_first()) == Seq::<Seq<char>>::empty());
            assert(host_members(o) =~= seq![crate::json::member(o[0].0@, json_host(o[0].1))]);
        },
        Data::Dict(es) => {
            lemma_json_entries(es@, cfg, v->Object_0@);
        },
        Data::Struct(fs) => {
            assert(fields_json_compatible(fs@));
            lemma_json_fields(fs@, cfg, v->Object_0@);
        },
        Data::StructVariant(_, fs) => {
            let p = crate::ser::wrapped_payload(v);
            assert(fields_json_compatible(fs@));
            lemma_json_fields(fs@, cfg, p->Object_0@);
            let o = v->Object_0@;
            assert(o.drop_first().len() == 0);
            assert(o[0].1 == crate::ser::wrapped_payload(v));
            assert(host_members(o.drop_first()) == Seq::<Seq<char>>::empty());
            assert(host_members(o) =~= seq![crate::json::member(o[0].0@, json_host(o[0].1))]);
        },
        _ => {},
    }
}

/// JSON equivalence: where maps become plain objects and big integers are
/// off, a value of the
/// described kind (see `json_compatible`) that does not itself encode to
/// `undefined` stringifies, once encoded, to exactly the text a reference
/// JSON encoder writes for it.
pub proof fn lemma_json_equivalence(d: Data, cfg: Serializer, v: HostValue)
    requires
        cfg.serialize_maps_as_objects,
        !cfg.serialize_large_number_types_as_bigints,
        json_compatible(d),
        !encodes_nullish(d),
        enc_rel(d, cfg, v),
    ensures
        stringify(v) == Some(json_data(d)),
{
    lemma_json(d, cfg, v);
    lemma_not_nullish(d, cfg, v);
}

} // verus!
