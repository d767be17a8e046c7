//! Type conversion: the cast matrix between primitive element types, the
//! value-level cast between encodings, and the vector operator that converts
//! a whole buffer.

use vstd::prelude::*;

use crate::encoding::EncodingType;
use crate::error::QueryError;
use crate::scratchpad::{vals_view, Scratchpad};
use crate::val::{RawVal, ValView};

verus! {

/// Conversion of one element type into another, as the documented cast
/// matrix defines it: widening is exact, narrowing truncates in two's
/// complement, and a type casts to itself unchanged.
pub trait Cast<T>: Sized {
    /// Performs the cast.  Each implementation states exactly what it
    /// returns.
    fn cast(self) -> T;
}

impl<T> Cast<T> for T {
    fn cast(self) -> T {
        self
    }
}

impl Cast<u8> for u16 {
    fn cast(self) -> u8 {
        cast_u16_to_u8(self)
    }
}

impl Cast<u8> for u32 {
    fn cast(self) -> u8 {
        cast_u32_to_u8(self)
    }
}

impl Cast<u8> for u64 {
    fn cast(self) -> u8 {
        cast_u64_to_u8(self)
    }
}

impl Cast<u8> for i64 {
    fn cast(self) -> u8 {
        cast_i64_to_u8(self)
    }
}

impl Cast<u16> for u8 {
    fn cast(self) -> u16 {
        cast_u8_to_u16(self)
    }
}

impl Cast<u16> for u32 {
    fn cast(self) -> u16 {
        cast_u32_to_u16(self)
    }
}

impl Cast<u16> for u64 {
    fn cast(self) -> u16 {
        cast_u64_to_u16(self)
    }
}

impl Cast<u16> for i64 {
    fn cast(self) -> u16 {
        cast_i64_to_u16(self)
    }
}

impl Cast<u32> for u8 {
    fn cast(self) -> u32 {
        cast_u8_to_u32(self)
    }
}

impl Cast<u32> for u16 {
    fn cast(self) -> u32 {
        cast_u16_to_u32(self)
    }
}

impl Cast<u32> for u64 {
    fn cast(self) -> u32 {
        cast_u64_to_u32(self)
    }
}

impl Cast<u32> for i64 {
    fn cast(self) -> u32 {
        cast_i64_to_u32(self)
    }
}

impl Cast<i64> for u8 {
    fn cast(self) -> i64 {
        cast_u8_to_i64(self)
    }
}

impl Cast<i64> for u16 {
    fn cast(self) -> i64 {
        cast_u16_to_i64(self)
    }
}

impl Cast<i64> for u32 {
    fn cast(self) -> i64 {
        cast_u32_to_i64(self)
    }
}

impl Cast<i64> for u64 {
    fn cast(self) -> i64 {
        cast_u64_to_i64(self)
    }
}

impl Cast<u64> for u8 {
    fn cast(self) -> u64 {
        cast_u8_to_u64(self)
    }
}

impl Cast<u64> for u16 {
    fn cast(self) -> u64 {
        cast_u16_to_u64(self)
    }
}

impl Cast<u64> for u32 {
    fn cast(self) -> u64 {
        cast_u32_to_u64(self)
    }
}

impl Cast<u64> for i64 {
    fn cast(self) -> u64 {
        cast_i64_to_u64(self)
    }
}

// The exact behavior of each conversion of the cast matrix.

/// Truncating or widening conversion from `u16` to `u8`.
pub fn cast_u16_to_u8(x: u16) -> (r: u8)
    ensures
        r == x as u8,
        r as int == x as int % 256,
{
    proof {
        assert((x as u8) as u16 == x % 256) by (bit_vector);
    }
    #[verifier::truncate] (x as u8)
}

/// Truncating or widening conversion from `u32` to `u8`.
pub fn cast_u32_to_u8(x: u32) -> (r: u8)
    ensures
        r == x as u8,
        r as int == x as int % 256,
{
    proof {
        assert((x as u8) as u32 == x % 256) by (bit_vector);
    }
    #[verifier::truncate] (x as u8)
}

/// Truncating or widening conversion from `u64` to `u8`.
pub fn cast_u64_to_u8(x: u64) -> (r: u8)
    ensures
        r == x as u8,
        r as int == x as int % 256,
{
    proof {
        assert((x as u8) as u64 == x % 256) by (bit_vector);
    }
    #[verifier::truncate] (x as u8)
}

/// Truncating or widening conversion from `i64` to `u8`.
pub fn cast_i64_to_u8(x: i64) -> (r: u8)
    ensures
        r == x as u8,
        0 <= x <= u8::MAX ==> r as int == x as int,
{
    #[verifier::truncate] (x as u8)
}

/// Truncating or widening conversion from `u8` to `u16`.
pub fn cast_u8_to_u16(x: u8) -> (r: u16)
    ensures
        r == x as u16,
        r as int == x as int,
{
    x as u16
}

/// Truncating or widening conversion from `u32` to `u16`.
pub fn cast_u32_to_u16(x: u32) -> (r: u16)
    ensures
        r == x as u16,
        r as int == x as int % 65536,
{
    proof {
        assert((x as u16) as u32 == x % 65536) by (bit_vector);
    }
    #[verifier::truncate] (x as u16)
}

/// Truncating or widening conversion from `u64` to `u16`.
pub fn cast_u64_to_u16(x: u64) -> (r: u16)
    ensures
        r == x as u16,
        r as int == x as int % 65536,
{
    proof {
        assert((x as u16) as u64 == x % 65536) by (bit_vector);
    }
    #[verifier::truncate] (x as u16)
}

/// Truncating or widening conversion from `i64` to `u16`.
pub fn cast_i64_to_u16(x: i64) -> (r: u16)
    ensures
        r == x as u16,
        0 <= x <= u16::MAX ==> r as int == x as int,
{
    #[verifier::truncate] (x as u16)
}

/// Truncating or widening conversion from `u8` to `u32`.
pub fn cast_u8_to_u32(x: u8) -> (r: u32)
    ensures
        r == x as u32,
        r as int == x as int,
{
    x as u32
}

/// Truncating or widening conversion from `u16` to `u32`.
pub fn cast_u16_to_u32(x: u16) -> (r: u32)
    ensures
        r == x as u32,
        r as int == x as int,
{
    x as u32
}

/// Truncating or widening conversion from `u64` to `u32`.
pub fn cast_u64_to_u32(x: u64) -> (r: u32)
    ensures
        r == x as u32,
        r as int == x as int % 4294967296,
{
    proof {
        assert((x as u32) as u64 == x % 4294967296) by (bit_vector);
    }
    #[verifier::truncate] (x as u32)
}

/// Truncating or widening conversion from `i64` to `u32`.
pub fn cast_i64_to_u32(x: i64) -> (r: u32)
    ensures
        r == x as u32,
        0 <= x <= u32::MAX ==> r as int == x as int,
{
    #[verifier::truncate] (x as u32)
}

/// Truncating or widening conversion from `u8` to `i64`.
pub fn cast_u8_to_i64(x: u8) -> (r: i64)
    ensures
        r == x as i64,
        r as int == x as int,
{
    x as i64
}

/// Truncating or widening conversion from `u16` to `i64`.
pub fn cast_u16_to_i64(x: u16) -> (r: i64)
    ensures
        r == x as i64,
        r as int == x as int,
{
    x as i64
}

/// Truncating or widening conversion from `u32` to `i64`.
pub fn cast_u32_to_i64(x: u32) -> (r: i64)
    ensures
        r == x as i64,
        r as int == x as int,
{
    x as i64
}

/// Truncating or widening conversion from `u64` to `i64`.
pub fn cast_u64_to_i64(x: u64) -> (r: i64)
    ensures
        r == x as i64,
        x <= i64::MAX ==> r as int == x as int,
{
    #[verifier::truncate] (x as i64)
}

/// Truncating or widening conversion from `u8` to `u64`.
pub fn cast_u8_to_u64(x: u8) -> (r: u64)
    ensures
        r == x as u64,
        r as int == x as int,
{
    x as u64
}

/// Truncating or widening conversion from `u16` to `u64`.
pub fn cast_u16_to_u64(x: u16) -> (r: u64)
    ensures
        r == x as u64,
        r as int == x as int,
{
    x as u64
}

/// Truncating or widening conversion from `u32` to `u64`.
pub fn cast_u32_to_u64(x: u32) -> (r: u64)
    ensures
        r == x as u64,
        r as int == x as int,
{
    x as u64
}

/// Truncating or widening conversion from `i64` to `u64`.
pub fn cast_i64_to_u64(x: i64) -> (r: u64)
    ensures
        r == x as u64,
        x >= 0 ==> r as int == x as int,
{
    #[verifier::truncate] (x as u64)
}

impl Cast<RawVal> for u8 {
    fn cast(self) -> RawVal {
        cast_u8_to_val(self)
    }
}

impl Cast<RawVal> for u16 {
    fn cast(self) -> RawVal {
        cast_u16_to_val(self)
    }
}

impl Cast<RawVal> for u32 {
    fn cast(self) -> RawVal {
        cast_u32_to_val(self)
    }
}

impl Cast<RawVal> for i64 {
    fn cast(self) -> RawVal {
        cast_i64_to_val(self)
    }
}

impl Cast<RawVal> for String {
    fn cast(self) -> RawVal {
        cast_string_to_val(self)
    }
}

impl Cast<Option<String>> for String {
    fn cast(self) -> Option<String> {
        cast_string_to_opt(self)
    }
}

/// Lifting a `u8` into the dynamic value type yields its integer.
pub fn cast_u8_to_val(x: u8) -> (r: RawVal)
    ensures
        r@ == ValView::Int(x as i64),
{
    RawVal::Int(x as i64)
}

/// Lifting a `u16` into the dynamic value type yields its integer.
pub fn cast_u16_to_val(x: u16) -> (r: RawVal)
    ensures
        r@ == ValView::Int(x as i64),
{
    RawVal::Int(x as i64)
}

/// Lifting a `u32` into the dynamic value type yields its integer.
pub fn cast_u32_to_val(x: u32) -> (r: RawVal)
    ensures
        r@ == ValView::Int(x as i64),
{
    RawVal::Int(x as i64)
}

/// Lifting an `i64` into the dynamic value type yields its integer.
pub fn cast_i64_to_val(x: i64) -> (r: RawVal)
    ensures
        r@ == ValView::Int(x),
{
    RawVal::Int(x)
}

/// Lifting a string into the dynamic value type yields its text.
pub fn cast_string_to_val(s: String) -> (r: RawVal)
    ensures
        r@ == ValView::Str(s@),
{
    RawVal::Str(s)
}

/// Lifting a string into the optional-string encoding wraps it.
pub fn cast_string_to_opt(s: String) -> (r: Option<String>)
    ensures
        r matches Some(t) && t@ == s@,
{
    Some(s)
}

impl RawVal {
    /// The integer behind the value, truncated to `u8` as the cast matrix
    /// does.  The original engine panics on a non-integer value, so one is
    /// excluded here.
    pub fn cast_u8(self) -> (r: u8)
        requires
            self@ is Int,
        ensures
            r == (self@->Int_0) as u8,
    {
        match self {
            RawVal::Int(i) => #[verifier::truncate] (i as u8),
            _ => {
                proof {
                    assert(false);
                }
                0
            },
        }
    }

    /// The integer behind the value, truncated to `u16`.
    pub fn cast_u16(self) -> (r: u16)
        requires
            self@ is Int,
        ensures
            r == (self@->Int_0) as u16,
    {
        match self {
            RawVal::Int(i) => #[verifier::truncate] (i as u16),
            _ => {
                proof {
                    assert(false);
                }
                0
            },
        }
    }

    /// The integer behind the value, truncated to `u32`.
    pub fn cast_u32(self) -> (r: u32)
        requires
            self@ is Int,
        ensures
            r == (self@->Int_0) as u32,
    {
        match self {
            RawVal::Int(i) => #[verifier::truncate] (i as u32),
            _ => {
                proof {
                    assert(false);
                }
                0
            },
        }
    }

    /// The integer behind the value.
    pub fn cast_i64(self) -> (r: i64)
        requires
            self@ is Int,
        ensures
            r == self@->Int_0,
    {
        match self {
            RawVal::Int(i) => i,
            _ => {
                proof {
                    assert(false);
                }
                0
            },
        }
    }

    /// The string behind the value.
    pub fn cast_str(self) -> (r: String)
        requires
            self@ is Str,
        ensures
            r@ == self@->Str_0,
    {
        match self {
            RawVal::Str(s) => s,
            _ => {
                proof {
                    assert(false);
                }
                String::new()
            },
        }
    }
}

/// The non-nullable encoding behind a tag: `NullableX` maps to `X`, all
/// others to themselves.
pub open spec fn non_nullable(t: EncodingType) -> EncodingType {
    match t {
        EncodingType::NullableU8 => EncodingType::U8,
        EncodingType::NullableU16 => EncodingType::U16,
        EncodingType::NullableU32 => EncodingType::U32,
        EncodingType::NullableI64 => EncodingType::I64,
        EncodingType::NullableF64 => EncodingType::F64,
        EncodingType::NullableStr => EncodingType::Str,
        _ => t,
    }
}

/// Whether the tag admits null values.
pub open spec fn admits_null(t: EncodingType) -> bool {
    match t {
        EncodingType::NullableU8 | EncodingType::NullableU16 | EncodingType::NullableU32
            | EncodingType::NullableI64 | EncodingType::NullableF64 | EncodingType::NullableStr
            | EncodingType::OptStr | EncodingType::Null => true,
        _ => false,
    }
}

/// The documented value-level cast matrix: integers truncate into the
/// narrow unsigned encodings and pass unchanged into the wide ones, strings
/// pass into the string encodings, nulls pass into the nullable encodings,
/// and every other pair is unsupported.  Float encodings are outside the
/// verified surface.
pub open spec fn cast_val_spec(v: ValView, t: EncodingType) -> Option<ValView> {
    match v {
        ValView::Null => if admits_null(t) {
            Some(ValView::Null)
        } else {
            None
        },
        ValView::Int(i) => match non_nullable(t) {
            EncodingType::U8 => Some(ValView::Int((i as u8) as i64)),
            EncodingType::U16 => Some(ValView::Int((i as u16) as i64)),
            EncodingType::U32 => Some(ValView::Int((i as u32) as i64)),
            EncodingType::U64 | EncodingType::I64 | EncodingType::USize | EncodingType::ScalarI64
                => Some(ValView::Int(i)),
            _ => None,
        },
        ValView::Str(s) => match non_nullable(t) {
            EncodingType::Str | EncodingType::OptStr | EncodingType::ScalarStr => Some(
                ValView::Str(s),
            ),
            _ => None,
        },
    }
}

/// The view of an optional value.
pub open spec fn opt_val_view(o: Option<RawVal>) -> Option<ValView> {
    match o {
        Some(v) => Some(v@),
        None => None,
    }
}

/// Cast closure: casting a value into an encoding twice returns the same
/// value as casting it once.
pub proof fn lemma_cast_val_idempotent(v: ValView, t: EncodingType)
    ensures
        cast_val_spec(v, t) matches Some(w) ==> cast_val_spec(w, t) == Some(w),
{
    match v {
        ValView::Int(i) => {
            match non_nullable(t) {
                EncodingType::U8 => {
                    let w = (i as u8) as i64;
                    assert(0 <= w <= u8::MAX);
                    assert((w as u8) as i64 == w);
                },
                EncodingType::U16 => {
                    let w = (i as u16) as i64;
                    assert(0 <= w <= u16::MAX);
                    assert((w as u16) as i64 == w);
                },
                EncodingType::U32 => {
                    let w = (i as u32) as i64;
                    assert(0 <= w <= u32::MAX);
                    assert((w as u32) as i64 == w);
                },
                _ => {},
            }
        },
        _ => {},
    }
}

/// Casts one value into the target encoding, or reports the pair as
/// unsupported.
pub fn cast_val(v: &RawVal, t: EncodingType) -> (r: Option<RawVal>)
    ensures
        opt_val_view(r) == cast_val_spec(v@, t),
{
    let base = match t {
        EncodingType::NullableU8 => EncodingType::U8,
        EncodingType::NullableU16 => EncodingType::U16,
        EncodingType::NullableU32 => EncodingType::U32,
        EncodingType::NullableI64 => EncodingType::I64,
        EncodingType::NullableF64 => EncodingType::F64,
        EncodingType::NullableStr => EncodingType::Str,
        _ => t,
    };
    match v {
        RawVal::Null => {
            let ok = matches!(
                t,
                EncodingType::NullableU8 | EncodingType::NullableU16 | EncodingType::NullableU32
                    | EncodingType::NullableI64 | EncodingType::NullableF64
                    | EncodingType::NullableStr | EncodingType::OptStr | EncodingType::Null
            );
            if ok {
                Some(RawVal::Null)
            } else {
                None
            }
        },
        RawVal::Int(i) => match base {
            EncodingType::U8 => Some(RawVal::Int((#[verifier::truncate] (*i as u8)) as i64)),
            EncodingType::U16 => Some(RawVal::Int((#[verifier::truncate] (*i as u16)) as i64)),
            EncodingType::U32 => Some(RawVal::Int((#[verifier::truncate] (*i as u32)) as i64)),
            EncodingType::U64 | EncodingType::I64 | EncodingType::USize | EncodingType::ScalarI64
                => Some(RawVal::Int(*i)),
            _ => None,
        },
        RawVal::Str(s) => match base {
            EncodingType::Str | EncodingType::OptStr | EncodingType::ScalarStr => Some(
                RawVal::Str(s.clone()),
            ),
            _ => None,
        },
    }
}

/// Whether every value of the buffer casts into the target encoding.
pub open spec fn all_castable(s: Seq<ValView>, t: EncodingType) -> bool {
    forall|i: int| 0 <= i < s.len() ==> cast_val_spec(#[trigger] s[i], t) is Some
}

/// The buffer with every value cast into the target encoding.
pub open spec fn casts_of(s: Seq<ValView>, t: EncodingType) -> Seq<ValView> {
    s.map_values(|v: ValView| cast_val_spec(v, t)->Some_0)
}

/// A dataflow operator: buffer ids it reads and writes, its streaming
/// capabilities, and its per-chunk execution against the scratchpad.
pub trait VecOperator {
    /// The buffer ids the operator reads.
    fn inputs(&self) -> Vec<usize>;

    /// The buffer ids the operator writes.
    fn outputs(&self) -> Vec<usize>;

    /// Whether input `i` may be fed in chunks.
    fn can_stream_input(&self, i: usize) -> bool;

    /// Whether output `i` is produced in chunks.
    fn can_stream_output(&self, i: usize) -> bool;

    /// Whether the operator owns new memory.
    fn allocates(&self) -> bool;

    /// Pre-allocates the operator's outputs.
    fn init(&mut self, total_len: usize, batch_size: usize, scratchpad: &mut Scratchpad);

    /// Runs one chunk.
    fn execute(&mut self, streaming: bool, scratchpad: &mut Scratchpad) -> Result<(), QueryError>;
}

/// Converts every element of its input buffer into the target encoding.
#[derive(Debug)]
pub struct TypeConversionOperator {
    pub input: usize,
    pub output: usize,
    pub target: EncodingType,
}

impl VecOperator for TypeConversionOperator {
    fn inputs(&self) -> (r: Vec<usize>)
        ensures
            r@ == seq![self.input],
    {
        let mut v: Vec<usize> = Vec::new();
        v.push(self.input);
        proof {
            assert(v@ =~= seq![self.input]);
        }
        v
    }

    fn outputs(&self) -> (r: Vec<usize>)
        ensures
            r@ == seq![self.output],
    {
        let mut v: Vec<usize> = Vec::new();
        v.push(self.output);
        proof {
            assert(v@ =~= seq![self.output]);
        }
        v
    }

    fn can_stream_input(&self, _i: usize) -> (r: bool)
        ensures
            r,
    {
        true
    }

    fn can_stream_output(&self, _i: usize) -> (r: bool)
        ensures
            r,
    {
        true
    }

    fn allocates(&self) -> (r: bool)
        ensures
            r,
    {
        true
    }

    fn init(&mut self, _total_len: usize, _batch_size: usize, scratchpad: &mut Scratchpad)
        ensures
            old(self).output < old(scratchpad).buffers@.len() ==> {
                &&& final(scratchpad).buffers@.len() == old(scratchpad).buffers@.len()
                &&& final(scratchpad).buffers@[old(self).output as int]@ == Seq::<
                    RawVal,
                >::empty()
                &&& forall|i: int|
                    0 <= i < old(scratchpad).buffers@.len() && i != old(self).output ==> (
                    #[trigger] final(scratchpad).buffers@[i])@ == old(scratchpad).buffers@[i]@
            },
            old(self).output >= old(scratchpad).buffers@.len() ==> final(scratchpad).buffers@
                == old(scratchpad).buffers@,
            final(scratchpad).pinned@ == old(scratchpad).pinned@,
            *final(self) == *old(self),
    {
        if self.output < scratchpad.len() {
            scratchpad.set(self.output, Vec::new());
        }
    }

    /// Casts the input buffer element-wise.  When streaming, the output is
    /// cleared first so that the chunk replaces the previous one; otherwise
    /// the chunk is appended.  Fails, leaving the scratchpad unchanged,
    /// exactly when a buffer id is out of bounds, input and output
    /// coincide, or some element does not cast into the target encoding.
    fn execute(&mut self, streaming: bool, scratchpad: &mut Scratchpad) -> (r: Result<
        (),
        QueryError,
    >)
        ensures
            r is Ok <==> {
                &&& old(self).input < old(scratchpad).buffers@.len()
                &&& old(self).output < old(scratchpad).buffers@.len()
                &&& old(self).input != old(self).output
                &&& all_castable(
                    vals_view(old(scratchpad).buffers@[old(self).input as int]@),
                    old(self).target,
                )
            },
            r is Ok ==> {
                &&& final(scratchpad).buffers@.len() == old(scratchpad).buffers@.len()
                &&& vals_view(
                    final(scratchpad).buffers@[old(self).output as int]@,
                ) == (if streaming {
                    Seq::<ValView>::empty()
                } else {
                    vals_view(old(scratchpad).buffers@[old(self).output as int]@)
                }) + casts_of(
                    vals_view(old(scratchpad).buffers@[old(self).input as int]@),
                    old(self).target,
                )
                &&& forall|i: int|
                    0 <= i < old(scratchpad).buffers@.len() && i != old(self).output ==> (
                    #[trigger] final(scratchpad).buffers@[i])@ == old(scratchpad).buffers@[i]@
            },
            r is Err ==> *final(scratchpad) == *old(scratchpad),
            final(scratchpad).pinned@ == old(scratchpad).pinned@,
            *final(self) == *old(self),
    {
        if self.input >= scratchpad.len() || self.output >= scratchpad.len() || self.input
            == self.output {
            return Err(
                QueryError::FatalError("type conversion: invalid buffer reference".to_owned()),
            );
        }
        let ghost in_view = vals_view(scratchpad.buffers@[self.input as int]@);
        let mut out: Vec<RawVal> = Vec::new();
        let mut k: usize = 0;
        let n = scratchpad.get(self.input).len();
        while k < n
            invariant
                self.input < scratchpad.buffers@.len(),
                self.output < scratchpad.buffers@.len(),
                self.input != self.output,
                in_view == vals_view(scratchpad.buffers@[self.input as int]@),
                n == in_view.len(),
                0 <= k <= n,
                out@.len() == k,
                forall|i: int|
                    0 <= i < k ==> cast_val_spec(#[trigger] in_view[i], self.target) is Some,
                forall|i: int|
                    0 <= i < k ==> (#[trigger] out@[i])@ == cast_val_spec(
                        in_view[i],
                        self.target,
                    )->Some_0,
            decreases n - k,
        {
            match cast_val(&scratchpad.get(self.input)[k], self.target) {
                Some(v) => {
                    out.push(v);
                },
                None => {
                    proof {
                        assert(cast_val_spec(in_view[k as int], self.target) is None);
                        assert(!all_castable(in_view, self.target));
                    }
                    return Err(
                        QueryError::FatalError(
                            "type conversion: unsupported element".to_owned(),
                        ),
                    );
                },
            }
            k += 1;
        }
        proof {
            assert(vals_view(out@) =~= casts_of(in_view, self.target));
        }
        if streaming {
            scratchpad.set(self.output, out);
            proof {
                assert(vals_view(final(scratchpad).buffers@[self.output as int]@) =~= Seq::<
                    ValView,
                >::empty() + casts_of(in_view, self.target));
            }
        } else {
            let ghost out_pre = vals_view(scratchpad.buffers@[self.output as int]@);
            let mut combined: Vec<RawVal> = clone_vals(scratchpad.get(self.output));
            let mut out = out;
            combined.append(&mut out);
            proof {
                assert(vals_view(combined@) =~= out_pre + casts_of(in_view, self.target));
            }
            scratchpad.set(self.output, combined);
        }
        Ok(())
    }
}

/// Clones a value buffer.
pub fn clone_vals(v: &Vec<RawVal>) -> (r: Vec<RawVal>)
    ensures
        vals_view(r@) == vals_view(v@),
{
    let mut r: Vec<RawVal> = Vec::new();
    let mut i: usize = 0;
    while i < v.len()
        invariant
            0 <= i <= v@.len(),
            r@.len() == i,
            forall|k: int| 0 <= k < i ==> (#[trigger] r@[k])@ == v@[k]@,
        decreases v@.len() - i,
    {
        r.push(v[i].clone());
        i += 1;
    }
    proof {
        assert(vals_view(r@) =~= vals_view(v@));
    }
    r
}

} // verus!
