//! JSON texts of both sides of the conversion: what a reference JSON
//! encoder writes for typed data, and what a generic JSON stringifier
//! writes for a host value. Only values without floating-point numbers and
//! byte buffers are described.
use vstd::prelude::*;
use crate::value::{Data, HostValue, Num};

verus! {

/// The decimal digit `n`, for `0 <= n < 10`.
pub open spec fn digit_char(n: nat) -> char {
    seq!['0', '1', '2', '3', '4', '5', '6', '7', '8', '9'][n as int]
}

/// The decimal digits of `n`, most significant first.
pub open spec fn digits(n: nat) -> Seq<char>
    decreases n,
{
    if n < 10 {
        seq![digit_char(n)]
    } else {
        digits(n / 10) + seq![digit_char(n % 10)]
    }
}

/// The decimal text of an integer.
pub open spec fn int_text(n: int) -> Seq<char> {
    if n < 0 {
        seq!['-'] + digits((-n) as nat)
    } else {
        digits(n as nat)
    }
}

/// The lower-case hexadecimal digit `n`, for `0 <= n < 16`.
pub open spec fn hex_char(n: nat) -> char {
    seq!['0', '1', '2', '3', '4', '5', '6', '7', '8', '9', 'a', 'b', 'c', 'd', 'e', 'f'][n as int]
}

/// How a character stands inside a JSON string: quote and backslash
/// escaped, the usual control characters by name, other control
/// characters as a `\u00xx` escape, everything else as itself.
pub open spec fn escape(c: char) -> Seq<char> {
    if c == '"' {
        seq!['\\', '"']
    } else if c == '\\' {
        seq!['\\', '\\']
    } else if c == '\n' {
        seq!['\\', 'n']
    } else if c == '\r' {
        seq!['\\', 'r']
    } else if c == '\t' {
        seq!['\\', 't']
    } else if c == '\u{8}' {
        seq!['\\', 'b']
    } else if c == '\u{c}' {
        seq!['\\', 'f']
    } else if (c as u32) < 32 {
        seq!['\\', 'u', '0', '0', hex_char((c as u32 / 16) as nat), hex_char((c as u32 % 16) as nat)]
    } else {
        seq![c]
    }
}

/// The characters of a string, each escaped.
pub open spec fn escape_all(s: Seq<char>) -> Seq<char>
    decreases s.len(),
{
    if s.len() == 0 {
        Seq::empty()
    } else {
        escape(s[0]) + escape_all(s.drop_first())
    }
}

/// A JSON string literal.
pub open spec fn quote(s: Seq<char>) -> Seq<char> {
    seq!['"'] + escape_all(s) + seq!['"']
}

/// Parts separated by commas.
pub open spec fn join(parts: Seq<Seq<char>>) -> Seq<char>
    decreases parts.len(),
{
    if parts.len() == 0 {
        Seq::empty()
    } else if parts.len() == 1 {
        parts[0]
    } else {
        parts[0] + seq![','] + join(parts.drop_first())
    }
}

/// An object member: a quoted name, a colon, a value.
pub open spec fn member(name: Seq<char>, value: Seq<char>) -> Seq<char> {
    quote(name) + seq![':'] + value
}

/// A one-member object.
pub open spec fn single(name: Seq<char>, value: Seq<char>) -> Seq<char> {
    seq!['{'] + member(name, value) + seq!['}']
}

/// Whether `k` reads as a canonical decimal integer (digits only, no
/// leading zero but in "0"): a host object lists such property names, the
/// array indices among them, ahead of the others.
pub open spec fn is_numeral(k: Seq<char>) -> bool {
    &&& k.len() > 0
    &&& forall|i: int| 0 <= i < k.len() ==> '0' <= #[trigger] k[i] <= '9'
    &&& (k.len() == 1 || k[0] != '0')
}

/// The string a map key stands for, where the key encodes to a string.
pub open spec fn key_string(d: Data) -> Seq<char>
    decreases d,
{
    match d {
        Data::Str(s) => s@,
        Data::Char(c) => seq![c],
        Data::UnitVariant(n) => n@,
        Data::Present(x) => key_string(*x),
        _ => Seq::empty(),
    }
}

/// The text a reference JSON encoder writes for `d`: absent values and
/// units as `null`, unit variants as their name, other variants as a
/// one-member object, sequences as arrays, maps and structs as objects.
pub open spec fn json_data(d: Data) -> Seq<char>
    decreases d,
{
    match d {
        Data::Unit => "null"@,
        Data::Absent => "null"@,
        Data::Bool(b) => if b {
            "true"@
        } else {
            "false"@
        },
        Data::I32(n) => int_text(n as int),
        Data::U32(n) => int_text(n as int),
        Data::I64(n) => int_text(n as int),
        Data::U64(n) => int_text(n as int),
        Data::I128(n) => int_text(n as int),
        Data::U128(n) => int_text(n as int),
        Data::Char(c) => quote(seq![c]),
        Data::Str(s) => quote(s@),
        Data::Present(x) => json_data(*x),
        Data::UnitVariant(n) => quote(n@),
        Data::NewtypeVariant(n, x) => single(n@, json_data(*x)),
        Data::List(xs) => seq!['['] + join(data_items(xs@)) + seq![']'],
        Data::TupleVariant(n, xs) => single(n@, seq!['['] + join(data_items(xs@)) + seq![']']),
        Data::Dict(es) => seq!['{'] + join(data_entries(es@)) + seq!['}'],
        Data::Struct(fs) => seq!['{'] + join(data_fields(fs@)) + seq!['}'],
        Data::StructVariant(n, fs) => single(n@, seq!['{'] + join(data_fields(fs@)) + seq!['}']),
        _ => Seq::empty(),
    }
}

/// The texts of sequence elements.
pub open spec fn data_items(xs: Seq<Data>) -> Seq<Seq<char>>
    decreases xs,
{
    if xs.len() == 0 {
        Seq::empty()
    } else {
        seq![json_data(xs[0])] + data_items(xs.drop_first())
    }
}

/// The members of a map written as an object.
pub open spec fn data_entries(es: Seq<(Data, Data)>) -> Seq<Seq<char>>
    decreases es,
{
    if es.len() == 0 {
        Seq::empty()
    } else {
        seq![member(key_string(es[0].0), json_data(es[0].1))] + data_entries(es.drop_first())
    }
}

/// The members of a struct.
pub open spec fn data_fields(fs: Seq<(String, Data)>) -> Seq<Seq<char>>
    decreases fs,
{
    if fs.len() == 0 {
        Seq::empty()
    } else {
        seq![member(fs[0].0@, json_data(fs[0].1))] + data_fields(fs.drop_first())
    }
}

/// The text a generic JSON stringifier writes for `v` inside an array:
/// `undefined` as `null`, a native map as an empty object, and an object
/// without its `undefined`-valued properties.
pub open spec fn json_host(v: HostValue) -> Seq<char>
    decreases v,
{
    match v {
        HostValue::Undefined => "null"@,
        HostValue::Null => "null"@,
        HostValue::Bool(b) => if b {
            "true"@
        } else {
            "false"@
        },
        HostValue::Number(Num::Int(n)) => int_text(n as int),
        HostValue::Str(s) => quote(s@),
        HostValue::Array(a) => seq!['['] + join(host_items(a@)) + seq![']'],
        HostValue::NativeMap(_) => "{}"@,
        HostValue::Object(o) => seq!['{'] + join(host_members(o@)) + seq!['}'],
        _ => Seq::empty(),
    }
}

/// The texts of array elements.
pub open spec fn host_items(a: Seq<HostValue>) -> Seq<Seq<char>>
    decreases a,
{
    if a.len() == 0 {
        Seq::empty()
    } else {
        seq![json_host(a[0])] + host_items(a.drop_first())
    }
}

/// The members of an object: its properties whose value is not `undefined`.
pub open spec fn host_members(o: Seq<(String, HostValue)>) -> Seq<Seq<char>>
    decreases o,
{
    if o.len() == 0 {
        Seq::empty()
    } else if o[0].1 is Undefined {
        host_members(o.drop_first())
    } else {
        seq![member(o[0].0@, json_host(o[0].1))] + host_members(o.drop_first())
    }
}

/// What stringifying a whole host value gives: no text at all for
/// `undefined`.
pub open spec fn stringify(v: HostValue) -> Option<Seq<char>> {
    if v is Undefined {
        None
    } else {
        Some(json_host(v))
    }
}

} // verus!
