//! Codecs: reversible transformations between a physical buffer and its
//! logical values.  Decoding always undoes encoding.

use vstd::prelude::*;

use crate::scratchpad::vals_view;
use crate::val::{RawVal, ValView};

verus! {

/// A reversible per-value transformation: the identity, an integer offset
/// (values are stored relative to a base, wrapping), or a dictionary
/// (strings are stored as indices into a table of values).
#[derive(Debug)]
pub enum Codec {
    Identity,
    Offset(i64),
    Dict(Vec<String>),
}

/// The view of a codec.
pub enum CodecView {
    Identity,
    Offset(i64),
    Dict(Seq<Seq<char>>),
}

impl View for Codec {
    type V = CodecView;

    open spec fn view(&self) -> CodecView {
        match self {
            Codec::Identity => CodecView::Identity,
            Codec::Offset(b) => CodecView::Offset(*b),
            Codec::Dict(d) => CodecView::Dict(d@.map_values(|s: String| s@)),
        }
    }
}

/// The index of the first dictionary entry equal to `s`.
pub open spec fn dict_index(d: Seq<Seq<char>>, s: Seq<char>) -> Option<int>
    decreases d.len(),
{
    if d.len() == 0 {
        None
    } else if d[0] == s {
        Some(0)
    } else {
        match dict_index(d.subrange(1, d.len() as int), s) {
            None => None,
            Some(i) => Some(i + 1),
        }
    }
}

/// What encoding one value returns: `None` when the codec cannot carry
/// the value.
pub open spec fn encode_val_spec(c: CodecView, v: ValView) -> Option<ValView> {
    match c {
        CodecView::Identity => Some(v),
        CodecView::Offset(b) => match v {
            ValView::Int(x) => Some(ValView::Int(x.wrapping_sub(b))),
            ValView::Null => Some(ValView::Null),
            _ => None,
        },
        CodecView::Dict(d) => match v {
            ValView::Str(s) => match dict_index(d, s) {
                Some(i) => Some(ValView::Int(i as i64)),
                None => None,
            },
            ValView::Null => Some(ValView::Null),
            _ => None,
        },
    }
}

/// What decoding one value returns.
pub open spec fn decode_val_spec(c: CodecView, v: ValView) -> Option<ValView> {
    match c {
        CodecView::Identity => Some(v),
        CodecView::Offset(b) => match v {
            ValView::Int(x) => Some(ValView::Int(x.wrapping_add(b))),
            ValView::Null => Some(ValView::Null),
            _ => None,
        },
        CodecView::Dict(d) => match v {
            ValView::Int(i) => if 0 <= i < d.len() {
                Some(ValView::Str(d[i as int]))
            } else {
                None
            },
            ValView::Null => Some(ValView::Null),
            _ => None,
        },
    }
}

/// The dictionary entry found for `s` is `s` itself, and its index is in
/// range.
proof fn lemma_dict_index_found(d: Seq<Seq<char>>, s: Seq<char>)
    ensures
        dict_index(d, s) matches Some(i) ==> 0 <= i < d.len() && d[i] == s,
    decreases d.len(),
{
    if d.len() > 0 && d[0] != s {
        lemma_dict_index_found(d.subrange(1, d.len() as int), s);
    }
}

/// Encoding round-trip: whenever a codec can encode a value, decoding the
/// encoded value returns it unchanged.  A dictionary is bounded by the
/// integer range its indices are stored in.
pub proof fn lemma_codec_round_trip(c: CodecView, v: ValView)
    requires
        c matches CodecView::Dict(d) ==> d.len() <= i64::MAX,
    ensures
        encode_val_spec(c, v) matches Some(e) ==> decode_val_spec(c, e) == Some(v),
{
    match c {
        CodecView::Identity => {},
        CodecView::Offset(b) => {
            match v {
                ValView::Int(x) => {
                    let e = x.wrapping_sub(b);
                    assert(e.wrapping_add(b) == x) by {
                        let m = 0x1_0000_0000_0000_0000int;
                        assert(e as int - (x as int - b as int) == 0 || e as int - (x as int
                            - b as int) == m || e as int - (x as int - b as int) == -m);
                    }
                },
                _ => {},
            }
        },
        CodecView::Dict(d) => {
            match v {
                ValView::Str(s) => {
                    lemma_dict_index_found(d, s);
                    match dict_index(d, s) {
                        Some(i) => {
                            assert(0 <= i < d.len());
                            assert((i as i64) as int == i);
                        },
                        None => {},
                    }
                },
                _ => {},
            }
        },
    }
}

impl Codec {
    /// Encodes one value, or reports that the codec cannot carry it.
    pub fn encode_val(&self, v: &RawVal) -> (r: Option<RawVal>)
        requires
            self@ matches CodecView::Dict(d) ==> d.len() <= i64::MAX,
        ensures
            crate::type_conversion::opt_val_view(r) == encode_val_spec(self@, v@),
    {
        match self {
            Codec::Identity => Some(v.clone()),
            Codec::Offset(b) => match v {
                RawVal::Int(x) => Some(RawVal::Int(x.wrapping_sub(*b))),
                RawVal::Null => Some(RawVal::Null),
                _ => None,
            },
            Codec::Dict(d) => match v {
                RawVal::Str(s) => {
                    proof {
                        assert(d@.map_values(|t: String| t@).skip(0) =~= d@.map_values(
                            |t: String| t@,
                        ));
                    }
                    let ghost dv = d@.map_values(|t: String| t@);
                    let mut i: usize = 0;
                    while i < d.len()
                        invariant
                            dv == d@.map_values(|t: String| t@),
                            self@ == CodecView::Dict(dv),
                            v@ == ValView::Str(s@),
                            dv.len() <= i64::MAX,
                            0 <= i <= d@.len(),
                            dict_index(dv, s@) == match dict_index(dv.skip(i as int), s@) {
                                None => None::<int>,
                                Some(p) => Some(p + i),
                            },
                        decreases d@.len() - i,
                    {
                        let ghost rest = dv.skip(i as int);
                        proof {
                            assert(rest[0] == dv[i as int]);
                            assert(rest.subrange(1, rest.len() as int) =~= dv.skip(i + 1));
                        }
                        if d[i] == *s {
                            proof {
                                assert(rest[0] == s@);
                                assert(dict_index(dv, s@) == Some(i as int));
                                assert(i < dv.len());
                                assert(i <= i64::MAX);
                                assert((i as i64) as int == i as int);
                                assert(v@ == ValView::Str(s@));
                                assert(self@ == CodecView::Dict(dv));
                                assert(encode_val_spec(self@, v@) == Some(
                                    ValView::Int((i as int) as i64),
                                ));
                            }
                            return Some(RawVal::Int(i as i64));
                        }
                        i += 1;
                    }
                    proof {
                        assert(dv.skip(dv.len() as int) =~= Seq::<Seq<char>>::empty());
                    }
                    None
                },
                RawVal::Null => Some(RawVal::Null),
                _ => None,
            },
        }
    }

    /// Decodes one value, or reports that it is not a valid encoding.
    pub fn decode_val(&self, v: &RawVal) -> (r: Option<RawVal>)
        ensures
            crate::type_conversion::opt_val_view(r) == decode_val_spec(self@, v@),
    {
        match self {
            Codec::Identity => Some(v.clone()),
            Codec::Offset(b) => match v {
                RawVal::Int(x) => Some(RawVal::Int(x.wrapping_add(*b))),
                RawVal::Null => Some(RawVal::Null),
                _ => None,
            },
            Codec::Dict(d) => match v {
                RawVal::Int(i) => {
                    if 0 <= *i && (*i as u64) < (d.len() as u64) {
                        proof {
                            assert(d@.map_values(|t: String| t@)[*i as int] == d@[*i as int]@);
                        }
                        Some(RawVal::Str(d[*i as usize].clone()))
                    } else {
                        None
                    }
                },
                RawVal::Null => Some(RawVal::Null),
                _ => None,
            },
        }
    }

    /// Encodes a whole buffer, or reports the first value the codec
    /// cannot carry.
    pub fn encode(&self, data: &Vec<RawVal>) -> (r: Option<Vec<RawVal>>)
        requires
            self@ matches CodecView::Dict(d) ==> d.len() <= i64::MAX,
        ensures
            r matches Some(out) ==> out@.len() == data@.len() && forall|i: int|
                0 <= i < data@.len() ==> encode_val_spec(self@, vals_view(data@)[i]) == Some(
                    (#[trigger] out@[i])@,
                ),
            r is None ==> exists|i: int|
                0 <= i < data@.len() && encode_val_spec(self@, (#[trigger] vals_view(data@)[i]))
                    is None,
    {
        let mut out: Vec<RawVal> = Vec::new();
        let mut i: usize = 0;
        while i < data.len()
            invariant
                self@ matches CodecView::Dict(d) ==> d.len() <= i64::MAX,
                0 <= i <= data@.len(),
                out@.len() == i,
                forall|x: int|
                    0 <= x < i ==> encode_val_spec(self@, vals_view(data@)[x]) == Some(
                        (#[trigger] out@[x])@,
                    ),
            decreases data@.len() - i,
        {
            match self.encode_val(&data[i]) {
                Some(v) => {
                    out.push(v);
                },
                None => {
                    proof {
                        assert(encode_val_spec(self@, vals_view(data@)[i as int]) is None);
                    }
                    return None;
                },
            }
            i += 1;
        }
        Some(out)
    }

    /// Decodes a whole buffer, or reports the first invalid encoding.
    pub fn decode(&self, data: &Vec<RawVal>) -> (r: Option<Vec<RawVal>>)
        ensures
            r matches Some(out) ==> out@.len() == data@.len() && forall|i: int|
                0 <= i < data@.len() ==> decode_val_spec(self@, vals_view(data@)[i]) == Some(
                    (#[trigger] out@[i])@,
                ),
            r is None ==> exists|i: int|
                0 <= i < data@.len() && decode_val_spec(self@, (#[trigger] vals_view(data@)[i]))
                    is None,
    {
        let mut out: Vec<RawVal> = Vec::new();
        let mut i: usize = 0;
        while i < data.len()
            invariant
                0 <= i <= data@.len(),
                out@.len() == i,
                forall|x: int|
                    0 <= x < i ==> decode_val_spec(self@, vals_view(data@)[x]) == Some(
                        (#[trigger] out@[x])@,
                    ),
            decreases data@.len() - i,
        {
            match self.decode_val(&data[i]) {
                Some(v) => {
                    out.push(v);
                },
                None => {
                    proof {
                        assert(decode_val_spec(self@, vals_view(data@)[i as int]) is None);
                    }
                    return None;
                },
            }
            i += 1;
        }
        Some(out)
    }
}

/// Encoding round-trip for whole buffers: decoding an encoded buffer
/// returns the original values.
pub proof fn lemma_codec_buffer_round_trip(c: CodecView, data: Seq<ValView>, enc: Seq<ValView>)
    requires
        c matches CodecView::Dict(d) ==> d.len() <= i64::MAX,
        enc.len() == data.len(),
        forall|i: int|
            0 <= i < data.len() ==> encode_val_spec(c, data[i]) == Some(#[trigger] enc[i]),
    ensures
        forall|i: int|
            0 <= i < enc.len() ==> decode_val_spec(c, #[trigger] enc[i]) == Some(data[i]),
{
    assert forall|i: int| 0 <= i < enc.len() implies decode_val_spec(c, #[trigger] enc[i]) == Some(
        data[i],
    ) by {
        lemma_codec_round_trip(c, data[i]);
    }
}

} // verus!
