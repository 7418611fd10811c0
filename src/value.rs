//! The two sides of the conversion: typed data and the dynamic host value.
use vstd::prelude::*;

verus! {

/// The largest integer that a host number holds exactly, together with all
/// integers below it: 2^53 - 1.
pub const MAX_SAFE_INTEGER: i64 = 9007199254740991;

/// A host number.
///
/// The host stores numbers as IEEE-754 doubles. A number that is an exact
/// integer in the safe range is held as that integer; any other number is
/// held as its bit pattern and only carried through.
#[derive(Debug, Clone, Copy, PartialEq, Eq)]
pub enum Num {
    Int(i64),
    Bits(u64),
}

/// An opaque dynamic value of the host runtime, as the converters see it.
#[derive(Debug)]
pub enum HostValue {
    /// The host's "missing value" sentinel.
    Undefined,
    /// The host's "null" sentinel.
    Null,
    Bool(bool),
    Number(Num),
    /// An arbitrary-precision integer: whether it is negative, and its magnitude.
    BigInt(bool, u128),
    Str(String),
    /// A byte buffer (a typed byte array or a raw buffer).
    Bytes(Vec<u8>),
    /// A native array.
    Array(Vec<HostValue>),
    /// A value that is not an array but exposes an iteration capability
    /// (a set, a generator), as the values it yields.
    Iterable(Vec<HostValue>),
    /// A native ordered key/value collection: its entries in insertion
    /// order, each as the two-element `[key, value]` array that iterating
    /// the collection yields.
    NativeMap(Vec<HostValue>),
    /// A plain property bag: its own enumerable properties in order.
    Object(Vec<(String, HostValue)>),
    /// Any other host value (a function, a symbol, a big integer wider than
    /// 128 bits): no request accepts it.
    Other,
}

/// A value of the generic serialization data model: what a typed value hands
/// to the encoder, and what the decoder hands back.
///
/// Newtype structs are transparent and have no variant of their own; 8 and
/// 16-bit integers travel as `I32` and `U32`.
#[derive(Debug)]
pub enum Data {
    /// `()` and unit structs.
    Unit,
    Bool(bool),
    I32(i32),
    U32(u32),
    I64(i64),
    U64(u64),
    I128(i128),
    U128(u128),
    /// A floating-point number.
    Float(Num),
    Char(char),
    Str(String),
    Bytes(Vec<u8>),
    /// An absent option.
    Absent,
    /// A present option.
    Present(Box<Data>),
    UnitVariant(String),
    NewtypeVariant(String, Box<Data>),
    /// A sequence, a tuple or a tuple struct.
    List(Vec<Data>),
    TupleVariant(String, Vec<Data>),
    /// A map, entries in the order the typed value lists them.
    Dict(Vec<(Data, Data)>),
    /// A struct: field names and values in declaration order.
    Struct(Vec<(String, Data)>),
    StructVariant(String, Vec<(String, Data)>),
}

/// Whether `n` lies in the range where every integer is an exact host number.
pub open spec fn is_safe_int(n: int) -> bool {
    -MAX_SAFE_INTEGER <= n <= MAX_SAFE_INTEGER
}

/// The value of a host big integer.
pub open spec fn big_value(negative: bool, magnitude: u128) -> int {
    if negative {
        -(magnitude as int)
    } else {
        magnitude as int
    }
}

/// The absolute value of an integer.
pub open spec fn abs(n: int) -> int {
    if n < 0 {
        -n
    } else {
        n
    }
}

/// The host big integer of value `n`: its sign is set only for a negative
/// `n`.
pub open spec fn big_host(n: int) -> HostValue {
    HostValue::BigInt(n < 0, abs(n) as u128)
}

impl HostValue {
    /// `undefined` or `null`.
    pub open spec fn spec_is_nullish(&self) -> bool {
        self is Undefined || self is Null
    }

    /// Whether the value is `undefined` or `null`.
    #[verifier::when_used_as_spec(spec_is_nullish)]
    pub fn is_nullish(&self) -> (r: bool)
        ensures
            r == self.spec_is_nullish(),
    {
        match self {
            HostValue::Undefined | HostValue::Null => true,
            _ => false,
        }
    }

    /// The integer held, for a number that is a safe integer.
    pub open spec fn spec_as_safe_integer(&self) -> Option<i64> {
        match self {
            HostValue::Number(Num::Int(n)) => if is_safe_int(*n as int) {
                Some(*n)
            } else {
                None
            },
            _ => None,
        }
    }

    /// The integer held, where the value is a number that is an exact integer
    /// in the safe range.
    #[verifier::when_used_as_spec(spec_as_safe_integer)]
    pub fn as_safe_integer(&self) -> (r: Option<i64>)
        ensures
            r == self.spec_as_safe_integer(),
    {
        match self {
            HostValue::Number(Num::Int(n)) => {
                if -MAX_SAFE_INTEGER <= *n && *n <= MAX_SAFE_INTEGER {
                    Some(*n)
                } else {
                    None
                }
            },
            _ => None,
        }
    }
}

/// `a` and `b` hold the same host value: the same kind, and the same
/// contents all the way down.
pub open spec fn same(a: HostValue, b: HostValue) -> bool
    decreases a,
{
    match a {
        HostValue::Array(x) => b is Array && same_items(x@, b->Array_0@),
        HostValue::Iterable(x) => b is Iterable && same_items(x@, b->Iterable_0@),
        HostValue::NativeMap(x) => b is NativeMap && same_items(x@, b->NativeMap_0@),
        HostValue::Object(x) => {
            &&& b is Object
            &&& x@.len() == b->Object_0@.len()
            &&& forall|i: int|
                0 <= i < x@.len() ==> {
                    &&& (#[trigger] x@[i]).0 == b->Object_0@[i].0
                    &&& same(x@[i].1, b->Object_0@[i].1)
                }
        },
        HostValue::Bytes(x) => b is Bytes && b->Bytes_0@ == x@,
        _ => a == b,
    }
}

/// `xs` and `ys` hold the same host values, in order.
pub open spec fn same_items(xs: Seq<HostValue>, ys: Seq<HostValue>) -> bool
    decreases xs,
{
    &&& xs.len() == ys.len()
    &&& forall|i: int| 0 <= i < xs.len() ==> same(#[trigger] xs[i], ys[i])
}

/// What kind of host value a value is, as an error message reports it.
#[derive(Debug, Clone, Copy, PartialEq, Eq)]
pub enum Kind {
    /// `undefined` or `null`.
    Unit,
    Bool,
    Number,
    BigInt,
    Str,
    Bytes,
    Array,
    /// A native map or another iterable.
    Iterable,
    Object,
    Other,
}

/// The kind of `v`.
pub open spec fn kind_of(v: HostValue) -> Kind {
    match v {
        HostValue::Undefined | HostValue::Null => Kind::Unit,
        HostValue::Bool(_) => Kind::Bool,
        HostValue::Number(_) => Kind::Number,
        HostValue::BigInt(_, _) => Kind::BigInt,
        HostValue::Str(_) => Kind::Str,
        HostValue::Bytes(_) => Kind::Bytes,
        HostValue::Array(_) => Kind::Array,
        HostValue::Iterable(_) | HostValue::NativeMap(_) => Kind::Iterable,
        HostValue::Object(_) => Kind::Object,
        HostValue::Other => Kind::Other,
    }
}

impl HostValue {
    /// The kind of the value: what a type-mismatch error observed.
    pub fn kind(&self) -> (r: Kind)
        ensures
            r == kind_of(*self),
    {
        match self {
            HostValue::Undefined | HostValue::Null => Kind::Unit,
            HostValue::Bool(_) => Kind::Bool,
            HostValue::Number(_) => Kind::Number,
            HostValue::BigInt(_, _) => Kind::BigInt,
            HostValue::Str(_) => Kind::Str,
            HostValue::Bytes(_) => Kind::Bytes,
            HostValue::Array(_) => Kind::Array,
            HostValue::Iterable(_) | HostValue::NativeMap(_) => Kind::Iterable,
            HostValue::Object(_) => Kind::Object,
            HostValue::Other => Kind::Other,
        }
    }

    /// A deep copy of the value.
    pub fn duplicate(&self) -> (r: HostValue)
        ensures
            same(*self, r),
        decreases self, 1int,
    {
        match self {
            HostValue::Undefined => HostValue::Undefined,
            HostValue::Null => HostValue::Null,
            HostValue::Bool(b) => HostValue::Bool(*b),
            HostValue::Number(x) => HostValue::Number(*x),
            HostValue::BigInt(neg, mag) => HostValue::BigInt(*neg, *mag),
            HostValue::Str(t) => HostValue::Str(t.clone()),
            HostValue::Bytes(b) => {
                let mut copy: Vec<u8> = Vec::with_capacity(b.len());
                let mut i: usize = 0;
                while i < b.len()
                    invariant
                        0 <= i <= b@.len(),
                        copy@ == b@.subrange(0, i as int),
                    decreases b@.len() - i,
                {
                    copy.push(b[i]);
                    i += 1;
                }
                assert(copy@ == b@);
                HostValue::Bytes(copy)
            },
            HostValue::Array(x) => HostValue::Array(duplicate_items(x, Ghost(*self))),
            HostValue::Iterable(x) => HostValue::Iterable(duplicate_items(x, Ghost(*self))),
            HostValue::NativeMap(x) => HostValue::NativeMap(duplicate_items(x, Ghost(*self))),
            HostValue::Object(x) => {
                let mut out: Vec<(String, HostValue)> = Vec::new();
                let mut i: usize = 0;
                while i < x.len()
                    invariant
                        0 <= i <= x@.len(),
                        out@.len() == i,
                        *self == HostValue::Object(*x),
                        forall|j: int|
                            0 <= j < i ==> {
                                &&& (#[trigger] x@[j]).0 == out@[j].0
                                &&& same(x@[j].1, out@[j].1)
                            },
                    decreases x@.len() - i,
                {
                    proof {
                        vstd::std_specs::vec::axiom_vec_index_decreases(*x, i as int);
                        assert(decreases_to!(*self => self->Object_0));
                    }
                    out.push((x[i].0.clone(), x[i].1.duplicate()));
                    i += 1;
                }
                HostValue::Object(out)
            },
            HostValue::Other => HostValue::Other,
        }
    }
}

/// Deep copies of the items of an array-like value.
fn duplicate_items(xs: &Vec<HostValue>, Ghost(parent): Ghost<HostValue>) -> (r: Vec<HostValue>)
    requires
        parent == HostValue::Array(*xs) || parent == HostValue::Iterable(*xs) || parent == HostValue::NativeMap(*xs),
    ensures
        same_items(xs@, r@),
    decreases parent, 0int,
{
    let mut out: Vec<HostValue> = Vec::new();
    let mut i: usize = 0;
    while i < xs.len()
        invariant
            0 <= i <= xs@.len(),
            out@.len() == i,
            parent == HostValue::Array(*xs) || parent == HostValue::Iterable(*xs) || parent == HostValue::NativeMap(*xs),
            forall|j: int| 0 <= j < i ==> same(#[trigger] xs@[j], out@[j]),
        decreases xs@.len() - i,
    {
        proof {
            vstd::std_specs::vec::axiom_vec_index_decreases(*xs, i as int);
            if parent is Array {
                assert(decreases_to!(parent => parent->Array_0));
            } else if parent is Iterable {
                assert(decreases_to!(parent => parent->Iterable_0));
            } else {
                assert(decreases_to!(parent => parent->NativeMap_0));
            }
        }
        out.push(xs[i].duplicate());
        i += 1;
    }
    out
}

} // verus!
