use vstd::prelude::*;

use crate::elem::ElementType;

verus! {

/// Value of bit `i` (0 = least significant) of byte `b`, as 0 or 1.
pub open spec fn bit_of(b: u8, i: int) -> int {
    ((b >> (i as u8)) & 1) as int
}

/// The eight bit-values of one byte, least-significant bit first.
pub open spec fn bits_of(b: u8) -> Seq<int> {
    Seq::new(8, |i: int| bit_of(b, i))
}

/// Big-endian (network order) unsigned reading of two bytes.
pub open spec fn be16(hi: u8, lo: u8) -> int {
    256 * (hi as int) + (lo as int)
}

/// Two's-complement reading of an 8-bit value.
pub open spec fn as_signed8(b: u8) -> int {
    if b >= 128 {
        b - 256
    } else {
        b as int
    }
}

/// Two's-complement reading of a 16-bit value.
pub open spec fn as_signed16(w: int) -> int {
    if w >= 32768 {
        w - 65536
    } else {
        w
    }
}

/// The decoded values of the first element of `bytes` (which must hold at
/// least one full element).
pub open spec fn head_values(t: ElementType, bytes: Seq<u8>) -> Seq<int> {
    match t {
        ElementType::Bool => bits_of(bytes[0]),
        ElementType::U8 => seq![bytes[0] as int],
        ElementType::U16 => seq![be16(bytes[0], bytes[1])],
        ElementType::I8 => seq![as_signed8(bytes[0])],
        ElementType::I16 => seq![as_signed16(be16(bytes[0], bytes[1]))],
    }
}

/// Every value decoded from `bytes` under element type `t`, in buffer order.
/// A trailing run of bytes shorter than one element yields nothing.
pub open spec fn decode_spec(t: ElementType, bytes: Seq<u8>) -> Seq<int>
    decreases bytes.len(),
{
    if bytes.len() < t.spec_width() {
        Seq::empty()
    } else {
        head_values(t, bytes) + decode_spec(t, bytes.skip(t.spec_width() as int))
    }
}

/// A buffer of `L` bytes decodes to exactly `floor(L / w)` elements' worth of
/// values, each element yielding eight bit-values for `Bool` and one integer
/// otherwise; the final `L mod w` bytes contribute nothing.
pub proof fn lemma_decode_count(t: ElementType, bytes: Seq<u8>)
    ensures
        decode_spec(t, bytes).len() == t.values_per_elem() * (bytes.len() / t.spec_width()),
    decreases bytes.len(),
{
    let w = t.spec_width() as int;
    let n = bytes.len() as int;
    if bytes.len() < t.spec_width() {
        assert(n / w == 0);
    } else {
        lemma_decode_count(t, bytes.skip(w));
        assert((n - w) / w == n / w - 1);
    }
}

/// Bytes past the last whole element never matter: appending fewer than one
/// element's worth of bytes to an element-aligned buffer leaves the decoded
/// sequence unchanged.
pub proof fn lemma_decode_ignores_tail(t: ElementType, bytes: Seq<u8>, tail: Seq<u8>)
    requires
        bytes.len() % t.spec_width() == 0,
        tail.len() < t.spec_width(),
    ensures
        decode_spec(t, bytes + tail) == decode_spec(t, bytes),
    decreases bytes.len(),
{
    let w = t.spec_width() as int;
    if bytes.len() == 0 {
        assert(bytes + tail =~= tail);
    } else {
        assert(bytes.len() >= t.spec_width());
        assert((bytes + tail).skip(w) =~= bytes.skip(w) + tail);
        assert(head_values(t, bytes + tail) == head_values(t, bytes));
        assert(bytes.skip(w).len() % t.spec_width() == 0);
        lemma_decode_ignores_tail(t, bytes.skip(w), tail);
        assert(decode_spec(t, bytes + tail) =~= decode_spec(t, bytes));
    }
}

/// Whether `v` fits the range of values element type `t` can decode to.
pub open spec fn in_range(t: ElementType, v: int) -> bool {
    match t {
        ElementType::Bool => 0 <= v <= 1,
        ElementType::U8 => 0 <= v < 256,
        ElementType::U16 => 0 <= v < 65536,
        ElementType::I8 => -128 <= v < 128,
        ElementType::I16 => -32768 <= v < 32768,
    }
}

/// Big-endian bytes of one in-range value; only the numeric element types
/// have a byte encoding, so `Bool` yields nothing.
pub open spec fn encode_one(t: ElementType, v: int) -> Seq<u8> {
    match t {
        ElementType::Bool => Seq::empty(),
        ElementType::U8 => seq![v as u8],
        ElementType::U16 => seq![(v / 256) as u8, (v % 256) as u8],
        ElementType::I8 => seq![
            (if v < 0 {
                v + 256
            } else {
                v
            }) as u8,
        ],
        ElementType::I16 => (seq![
            ((if v < 0 {
                v + 65536
            } else {
                v
            }) / 256) as u8,
            ((if v < 0 {
                v + 65536
            } else {
                v
            }) % 256) as u8,
        ]),
    }
}

/// Big-endian bytes of a sequence of in-range numeric values.
pub open spec fn encode_spec(t: ElementType, vals: Seq<int>) -> Seq<u8>
    decreases vals.len(),
{
    if vals.len() == 0 {
        Seq::<u8>::empty()
    } else {
        encode_one(t, vals[0]) + encode_spec(t, vals.skip(1))
    }
}

/// Round trip: decoding the big-endian encoding of in-range values of a
/// numeric element type gives back exactly those values.
pub proof fn lemma_round_trip(t: ElementType, vals: Seq<int>)
    requires
        t != ElementType::Bool,
        forall|i: int| 0 <= i < vals.len() ==> in_range(t, #[trigger] vals[i]),
    ensures
        decode_spec(t, encode_spec(t, vals)) == vals,
    decreases vals.len(),
{
    let w = t.spec_width() as int;
    if vals.len() == 0 {
        assert(decode_spec(t, encode_spec(t, vals)) =~= vals);
    } else {
        let v = vals[0];
        let enc = encode_spec(t, vals);
        assert(in_range(t, v));
        assert(encode_one(t, v).len() == w);
        if t == ElementType::U16 {
            assert(0 <= v / 256 < 256 && 0 <= v % 256 < 256) by (nonlinear_arith)
                requires
                    0 <= v < 65536,
            ;
            assert(256 * (v / 256) + v % 256 == v) by (nonlinear_arith);
        } else if t == ElementType::I16 {
            let u = if v < 0 {
                v + 65536
            } else {
                v
            };
            assert(0 <= u / 256 < 256 && 0 <= u % 256 < 256) by (nonlinear_arith)
                requires
                    0 <= u < 65536,
            ;
            assert(256 * (u / 256) + u % 256 == u) by (nonlinear_arith);
            assert(v < 0 ==> u >= 32768) by (nonlinear_arith)
                requires
                    -32768 <= v < 32768,
                    u == if v < 0 {
                        v + 65536
                    } else {
                        v
                    },
            ;
        }
        assert(head_values(t, enc) =~= seq![v]);
        assert(enc.skip(w) =~= encode_spec(t, vals.skip(1)));
        lemma_round_trip(t, vals.skip(1));
        assert(decode_spec(t, enc) =~= vals);
    }
}

/// The mathematical values of a vector of decoded scalars.
pub open spec fn int_view(v: Seq<i32>) -> Seq<int> {
    v.map_values(|x: i32| x as int)
}

/// Decodes a packet's bytes as a sequence of scalars of type `t`; trailing
/// bytes that do not fill one element are dropped silently.
pub fn decode(t: ElementType, bytes: &Vec<u8>) -> (r: Vec<i32>)
    ensures
        int_view(r@) == decode_spec(t, bytes@),
        forall|i: int| 0 <= i < r@.len() ==> -32768 <= #[trigger] r@[i] <= 65535,
{
    let w = t.width();
    let mut out: Vec<i32> = Vec::new();
    let mut i: usize = 0;
    proof {
        assert(bytes@.skip(0) =~= bytes@);
        assert(int_view(out@) + decode_spec(t, bytes@) =~= decode_spec(t, bytes@));
    }
    while w <= bytes.len() - i && i < bytes.len()
        invariant
            w == t.spec_width(),
            1 <= w <= 2,
            i <= bytes@.len(),
            decode_spec(t, bytes@) == int_view(out@) + decode_spec(t, bytes@.skip(i as int)),
            forall|k: int| 0 <= k < out@.len() ==> -32768 <= #[trigger] out@[k] <= 65535,
        decreases bytes@.len() - i,
    {
        let ghost prefix = out@;
        let ghost rest = bytes@.skip(i as int);
        proof {
            assert(rest.len() >= w);
            assert(decode_spec(t, rest) == head_values(t, rest) + decode_spec(
                t,
                rest.skip(w as int),
            ));
            assert(rest.skip(w as int) =~= bytes@.skip(i as int + w as int));
        }
        match t {
            ElementType::Bool => {
                let b = bytes[i];
                out.push(((b >> 0u8) & 1) as i32);
                out.push(((b >> 1u8) & 1) as i32);
                out.push(((b >> 2u8) & 1) as i32);
                out.push(((b >> 3u8) & 1) as i32);
                out.push(((b >> 4u8) & 1) as i32);
                out.push(((b >> 5u8) & 1) as i32);
                out.push(((b >> 6u8) & 1) as i32);
                out.push(((b >> 7u8) & 1) as i32);
                proof {
                    assert(int_view(out@) =~= int_view(prefix) + bits_of(b));
                }
            },
            ElementType::U8 => {
                out.push(bytes[i] as i32);
                proof {
                    assert(int_view(out@) =~= int_view(prefix) + head_values(t, rest));
                }
            },
            ElementType::U16 => {
                let hi = bytes[i];
                let lo = bytes[i + 1];
                let v: i32 = 256 * (hi as i32) + (lo as i32);
                out.push(v);
                proof {
                    assert(int_view(out@) =~= int_view(prefix) + head_values(t, rest));
                }
            },
            ElementType::I8 => {
                let b = bytes[i];
                let v: i32 = if b >= 128 {
                    b as i32 - 256
                } else {
                    b as i32
                };
                out.push(v);
                proof {
                    assert(int_view(out@) =~= int_view(prefix) + head_values(t, rest));
                }
            },
            ElementType::I16 => {
                let hi = bytes[i];
                let lo = bytes[i + 1];
                let u: i32 = 256 * (hi as i32) + (lo as i32);
                let v: i32 = if u >= 32768 {
                    u - 65536
                } else {
                    u
                };
                out.push(v);
                proof {
                    assert(int_view(out@) =~= int_view(prefix) + head_values(t, rest));
                }
            },
        }
        proof {
            assert(int_view(out@) + decode_spec(t, bytes@.skip(i as int + w as int)) =~= (int_view(
                prefix,
            ) + head_values(t, rest)) + decode_spec(t, bytes@.skip(i as int + w as int)));
            assert((int_view(prefix) + head_values(t, rest)) + decode_spec(
                t,
                bytes@.skip(i as int + w as int),
            ) =~= int_view(prefix) + decode_spec(t, rest));
        }
        i += w;
    }
    proof {
        assert(bytes@.skip(i as int).len() < t.spec_width());
        assert(decode_spec(t, bytes@.skip(i as int)) =~= Seq::<int>::empty());
        assert(int_view(out@) + Seq::<int>::empty() =~= int_view(out@));
    }
    out
}

} // verus!
