//! The closed set of element encodings and the type classes that the typed
//! dispatch facility enumerates.

use vstd::prelude::*;

use crate::expr::Aggregator;

verus! {

/// Runtime tag for the element representation of a column or buffer.
#[derive(Debug, Clone, Copy, PartialEq, Eq, Structural)]
pub enum EncodingType {
    U8,
    U16,
    U32,
    U64,
    I64,
    F64,
    Str,
    OptStr,
    USize,
    Null,
    ScalarI64,
    ScalarStr,
    NullableU8,
    NullableU16,
    NullableU32,
    NullableI64,
    NullableF64,
    NullableStr,
}

/// A named subset of encodings (or of aggregators) over which one production
/// of a typed-dispatch site is instantiated.
#[derive(Debug, Clone, Copy, PartialEq, Eq, Structural)]
pub enum TypeClass {
    Str,
    Integer,
    IntegerNoU64,
    NumberNoU64,
    Float,
    NullableInteger,
    NullableFloat,
    Primitive,
    NullablePrimitive,
    PrimitiveUSize,
    PrimitiveNoU64,
    Const,
    ScalarI64,
    ScalarStr,
    IntAggregator,
    FloatAggregator,
}

/// A dispatch argument: the encoding tag of a buffer, or an aggregator
/// value (aggregator variables dispatch on the value itself, not a tag).
#[derive(Debug, Clone, Copy, PartialEq, Eq, Structural)]
pub enum DispatchArg {
    Tag(EncodingType),
    Agg(Aggregator),
}

/// Whether the class contains the argument.
pub open spec fn class_contains(c: TypeClass, a: DispatchArg) -> bool {
    match a {
        DispatchArg::Tag(t) => match c {
            TypeClass::Str => t == EncodingType::Str,
            TypeClass::Integer => t == EncodingType::U8 || t == EncodingType::U16 || t
                == EncodingType::U32 || t == EncodingType::U64 || t == EncodingType::I64,
            TypeClass::IntegerNoU64 => t == EncodingType::U8 || t == EncodingType::U16 || t
                == EncodingType::U32 || t == EncodingType::I64,
            TypeClass::NumberNoU64 => t == EncodingType::U8 || t == EncodingType::U16 || t
                == EncodingType::U32 || t == EncodingType::I64 || t == EncodingType::F64,
            TypeClass::Float => t == EncodingType::F64,
            TypeClass::NullableInteger => t == EncodingType::NullableU8 || t
                == EncodingType::NullableU16 || t == EncodingType::NullableU32 || t
                == EncodingType::NullableI64,
            TypeClass::NullableFloat => t == EncodingType::NullableF64,
            TypeClass::Primitive => t == EncodingType::U8 || t == EncodingType::U16 || t
                == EncodingType::U32 || t == EncodingType::U64 || t == EncodingType::I64 || t
                == EncodingType::F64 || t == EncodingType::Str || t == EncodingType::OptStr,
            TypeClass::NullablePrimitive => t == EncodingType::NullableU8 || t
                == EncodingType::NullableU16 || t == EncodingType::NullableU32 || t
                == EncodingType::NullableI64 || t == EncodingType::NullableF64 || t
                == EncodingType::NullableStr,
            TypeClass::PrimitiveUSize => t == EncodingType::U8 || t == EncodingType::U16 || t
                == EncodingType::U32 || t == EncodingType::U64 || t == EncodingType::I64 || t
                == EncodingType::F64 || t == EncodingType::Str || t == EncodingType::USize,
            TypeClass::PrimitiveNoU64 => t == EncodingType::U8 || t == EncodingType::U16 || t
                == EncodingType::U32 || t == EncodingType::I64 || t == EncodingType::F64 || t
                == EncodingType::Str,
            TypeClass::Const => t == EncodingType::ScalarI64 || t == EncodingType::ScalarStr,
            TypeClass::ScalarI64 => t == EncodingType::ScalarI64,
            TypeClass::ScalarStr => t == EncodingType::ScalarStr,
            TypeClass::IntAggregator => false,
            TypeClass::FloatAggregator => false,
        },
        DispatchArg::Agg(g) => match c {
            TypeClass::IntAggregator => g == Aggregator::Count || g == Aggregator::SumI64 || g
                == Aggregator::MaxI64 || g == Aggregator::MinI64,
            TypeClass::FloatAggregator => g == Aggregator::Count || g == Aggregator::SumF64 || g
                == Aggregator::MaxF64 || g == Aggregator::MinF64,
            _ => false,
        },
    }
}

/// Whether the class contains the argument.
pub fn class_contains_exec(c: TypeClass, a: DispatchArg) -> (r: bool)
    ensures
        r == class_contains(c, a),
{
    match a {
        DispatchArg::Tag(t) => match c {
            TypeClass::Str => matches!(t, EncodingType::Str),
            TypeClass::Integer => matches!(
                t,
                EncodingType::U8 | EncodingType::U16 | EncodingType::U32 | EncodingType::U64
                    | EncodingType::I64
            ),
            TypeClass::IntegerNoU64 => matches!(
                t,
                EncodingType::U8 | EncodingType::U16 | EncodingType::U32 | EncodingType::I64
            ),
            TypeClass::NumberNoU64 => matches!(
                t,
                EncodingType::U8 | EncodingType::U16 | EncodingType::U32 | EncodingType::I64
                    | EncodingType::F64
            ),
            TypeClass::Float => matches!(t, EncodingType::F64),
            TypeClass::NullableInteger => matches!(
                t,
                EncodingType::NullableU8 | EncodingType::NullableU16 | EncodingType::NullableU32
                    | EncodingType::NullableI64
            ),
            TypeClass::NullableFloat => matches!(t, EncodingType::NullableF64),
            TypeClass::Primitive => matches!(
                t,
                EncodingType::U8 | EncodingType::U16 | EncodingType::U32 | EncodingType::U64
                    | EncodingType::I64 | EncodingType::F64 | EncodingType::Str
                    | EncodingType::OptStr
            ),
            TypeClass::NullablePrimitive => matches!(
                t,
                EncodingType::NullableU8 | EncodingType::NullableU16 | EncodingType::NullableU32
                    | EncodingType::NullableI64 | EncodingType::NullableF64
                    | EncodingType::NullableStr
            ),
            TypeClass::PrimitiveUSize => matches!(
                t,
                EncodingType::U8 | EncodingType::U16 | EncodingType::U32 | EncodingType::U64
                    | EncodingType::I64 | EncodingType::F64 | EncodingType::Str
                    | EncodingType::USize
            ),
            TypeClass::PrimitiveNoU64 => matches!(
                t,
                EncodingType::U8 | EncodingType::U16 | EncodingType::U32 | EncodingType::I64
                    | EncodingType::F64 | EncodingType::Str
            ),
            TypeClass::Const => matches!(t, EncodingType::ScalarI64 | EncodingType::ScalarStr),
            TypeClass::ScalarI64 => matches!(t, EncodingType::ScalarI64),
            TypeClass::ScalarStr => matches!(t, EncodingType::ScalarStr),
            TypeClass::IntAggregator => false,
            TypeClass::FloatAggregator => false,
        },
        DispatchArg::Agg(g) => match c {
            TypeClass::IntAggregator => matches!(
                g,
                Aggregator::Count | Aggregator::SumI64 | Aggregator::MaxI64 | Aggregator::MinI64
            ),
            TypeClass::FloatAggregator => matches!(
                g,
                Aggregator::Count | Aggregator::SumF64 | Aggregator::MaxF64 | Aggregator::MinF64
            ),
            _ => false,
        },
    }
}

/// The characters of an encoding tag's name.
pub open spec fn tag_name_spec(t: EncodingType) -> Seq<char> {
    match t {
        EncodingType::U8 => "U8"@,
        EncodingType::U16 => "U16"@,
        EncodingType::U32 => "U32"@,
        EncodingType::U64 => "U64"@,
        EncodingType::I64 => "I64"@,
        EncodingType::F64 => "F64"@,
        EncodingType::Str => "Str"@,
        EncodingType::OptStr => "OptStr"@,
        EncodingType::USize => "USize"@,
        EncodingType::Null => "Null"@,
        EncodingType::ScalarI64 => "ScalarI64"@,
        EncodingType::ScalarStr => "ScalarStr"@,
        EncodingType::NullableU8 => "NullableU8"@,
        EncodingType::NullableU16 => "NullableU16"@,
        EncodingType::NullableU32 => "NullableU32"@,
        EncodingType::NullableI64 => "NullableI64"@,
        EncodingType::NullableF64 => "NullableF64"@,
        EncodingType::NullableStr => "NullableStr"@,
    }
}

/// The name of an encoding tag, for error reports.
pub fn tag_name(t: EncodingType) -> (r: String)
    ensures
        r@ == tag_name_spec(t),
{
    let s: &str = match t {
        EncodingType::U8 => "U8",
        EncodingType::U16 => "U16",
        EncodingType::U32 => "U32",
        EncodingType::U64 => "U64",
        EncodingType::I64 => "I64",
        EncodingType::F64 => "F64",
        EncodingType::Str => "Str",
        EncodingType::OptStr => "OptStr",
        EncodingType::USize => "USize",
        EncodingType::Null => "Null",
        EncodingType::ScalarI64 => "ScalarI64",
        EncodingType::ScalarStr => "ScalarStr",
        EncodingType::NullableU8 => "NullableU8",
        EncodingType::NullableU16 => "NullableU16",
        EncodingType::NullableU32 => "NullableU32",
        EncodingType::NullableI64 => "NullableI64",
        EncodingType::NullableF64 => "NullableF64",
        EncodingType::NullableStr => "NullableStr",
    };
    proof {
        reveal_strlit("U8");
        reveal_strlit("U16");
        reveal_strlit("U32");
        reveal_strlit("U64");
        reveal_strlit("I64");
        reveal_strlit("F64");
        reveal_strlit("Str");
        reveal_strlit("OptStr");
        reveal_strlit("USize");
        reveal_strlit("Null");
        reveal_strlit("ScalarI64");
        reveal_strlit("ScalarStr");
        reveal_strlit("NullableU8");
        reveal_strlit("NullableU16");
        reveal_strlit("NullableU32");
        reveal_strlit("NullableI64");
        reveal_strlit("NullableF64");
        reveal_strlit("NullableStr");
    }
    s.to_owned()
}

} // verus!
