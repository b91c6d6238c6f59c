//! leb128() integers.

use vstd::prelude::*;

use crate::error::Error;

verus! {

/// Maximum encoded length of a leb128() value.
pub const MAX_LEB128_BYTES: usize = 8;

/// 128 to the power `n`.
pub open spec fn pow128(n: nat) -> nat
    decreases n,
{
    if n == 0 {
        1
    } else {
        128 * pow128((n - 1) as nat)
    }
}

/// leb128 decoding of `data` from byte `i` on, where `acc` is the value of
/// bytes `0..i`: each byte contributes its low 7 bits at weight 128^i,
/// a clear high bit terminates, at most 8 bytes are read and the value
/// must fit in 32 bits. `offset` is where `data` starts in the input.
pub open spec fn leb128_scan(data: Seq<u8>, offset: usize, i: nat, acc: nat) -> Result<(u32, usize), Error>
    decreases MAX_LEB128_BYTES - i,
{
    if i >= MAX_LEB128_BYTES {
        Err(Error::InvalidLeb128 { offset })
    } else if i >= data.len() {
        Err(Error::UnexpectedEof { offset: (offset + i) as usize })
    } else {
        let acc2 = acc + (data[i as int] % 128) as nat * pow128(i);
        if data[i as int] < 128 {
            if acc2 <= u32::MAX {
                Ok((acc2 as u32, (i + 1) as usize))
            } else {
                Err(Error::InvalidLeb128 { offset })
            }
        } else {
            leb128_scan(data, offset, i + 1, acc2)
        }
    }
}

/// The result of decoding a leb128 value from the start of `data`:
/// `(value, bytes_consumed)`, or the error, with `offset` (where `data`
/// starts in the whole input) used to report positions.
pub open spec fn spec_decode(data: Seq<u8>, offset: usize) -> Result<(u32, usize), Error> {
    leb128_scan(data, offset, 0, 0)
}

/// Bytes of `data` that [`decode`] may look at.
pub open spec fn scan_len(data: Seq<u8>) -> int {
    if data.len() < MAX_LEB128_BYTES {
        data.len() as int
    } else {
        MAX_LEB128_BYTES as int
    }
}

/// Decodes an unsigned leb128 value from the start of `data`.
///
/// Returns `(value, bytes_consumed)`. IAMF constrains decoded values to fit
/// in 32 bits and the encoding to at most 8 bytes; both are enforced here.
/// `offset` is only used to report error positions.
pub fn decode(data: &[u8], offset: usize) -> (res: Result<(u32, usize), Error>)
    requires
        offset + scan_len(data@) <= usize::MAX,
    ensures
        res == spec_decode(data@, offset),
{
    let mut value: u64 = 0;
    let mut weight: u64 = 1;
    let mut i: usize = 0;
    proof {
        lemma_pow128_monotone(0, 8);
    }
    while i < MAX_LEB128_BYTES
        invariant
            i <= MAX_LEB128_BYTES,
            offset + scan_len(data@) <= usize::MAX,
            i <= data@.len(),
            weight == pow128(i as nat),
            value < weight,
            weight <= pow128(8),
            spec_decode(data@, offset) == leb128_scan(data@, offset, i as nat, value as nat),
        decreases MAX_LEB128_BYTES - i,
    {
        if i >= data.len() {
            return Err(Error::UnexpectedEof { offset: offset + i });
        }
        let byte = data[i];
        let low = byte & 0x7f;
        assert(low == byte % 128) by (bit_vector)
            requires
                low == byte & 0x7f,
        ;
        assert(value + low * weight < 128 * weight) by (nonlinear_arith)
            requires
                value < weight,
                low < 128,
        ;
        assert(pow128(8) == 0x100000000000000) by {
            reveal_with_fuel(pow128, 9);
        }
        assert(low * weight <= 127 * weight) by (nonlinear_arith)
            requires
                low < 128,
        ;
        value = value + (low as u64) * weight;
        if byte & 0x80 == 0 {
            assert(byte < 128) by (bit_vector)
                requires
                    byte & 0x80 == 0,
            ;
            if value <= u32::MAX as u64 {
                return Ok((value as u32, i + 1));
            } else {
                return Err(Error::InvalidLeb128 { offset });
            }
        }
        assert(byte >= 128) by (bit_vector)
            requires
                byte & 0x80 != 0,
        ;
        assert(pow128((i + 1) as nat) <= pow128(8)) by {
            lemma_pow128_monotone((i + 1) as nat, 8);
        }
        weight = weight * 128;
        i = i + 1;
    }
    Err(Error::InvalidLeb128 { offset })
}

pub proof fn lemma_pow128_monotone(a: nat, b: nat)
    requires
        a <= b,
    ensures
        1 <= pow128(a) <= pow128(b),
    decreases b,
{
    if b > 0 {
        if a < b {
            lemma_pow128_monotone(a, (b - 1) as nat);
        } else {
            lemma_pow128_monotone((b - 1) as nat, (b - 1) as nat);
        }
    }
}

/// The canonical (shortest) leb128 encoding of `v`: 7 bits per byte, low
/// bits first, the high bit set on every byte but the last.
pub open spec fn spec_encode(v: nat) -> Seq<u8>
    decreases v,
{
    if v < 128 {
        seq![v as u8]
    } else {
        seq![(v % 128 + 128) as u8] + spec_encode(v / 128)
    }
}

pub proof fn lemma_encode_len(v: nat, k: nat)
    requires
        v < pow128(k),
        k >= 1,
    ensures
        1 <= spec_encode(v).len() <= k,
    decreases v,
{
    if v >= 128 {
        assert(k >= 2) by {
            if k == 1 {
                reveal_with_fuel(pow128, 2);
            }
        }
        assert(v / 128 < pow128((k - 1) as nat)) by {
            assert(pow128(k) == 128 * pow128((k - 1) as nat));
        }
        lemma_encode_len(v / 128, (k - 1) as nat);
    }
}

proof fn lemma_scan_encoded(s: Seq<u8>, offset: usize, i: nat, acc: nat, w: nat)
    requires
        i + spec_encode(w).len() <= MAX_LEB128_BYTES,
        i + spec_encode(w).len() <= s.len(),
        s.subrange(i as int, (i + spec_encode(w).len()) as int) == spec_encode(w),
    ensures
        leb128_scan(s, offset, i, acc) == (if acc + w * pow128(i) <= u32::MAX {
            Ok::<(u32, usize), Error>(((acc + w * pow128(i)) as u32, (i + spec_encode(w).len()) as usize))
        } else {
            Err(Error::InvalidLeb128 { offset })
        }),
    decreases w,
{
    let enc = spec_encode(w);
    assert(s[i as int] == enc[0]);
    if w < 128 {
        assert(s[i as int] % 128 == w);
    } else {
        let p = pow128(i);
        let rest = spec_encode(w / 128);
        assert(enc == seq![(w % 128 + 128) as u8] + rest);
        assert(s[i as int] % 128 == w % 128);
        assert(s.subrange((i + 1) as int, (i + 1 + rest.len()) as int) =~= rest) by {
            assert forall|j: int| 0 <= j < rest.len() implies #[trigger] s.subrange((i + 1) as int, (i + 1 + rest.len()) as int)[j]
                == rest[j] by {
                assert(s.subrange(i as int, (i + enc.len()) as int)[j + 1] == enc[j + 1]);
            }
        }
        let acc2 = acc + (w % 128) * p;
        lemma_scan_encoded(s, offset, i + 1, acc2, w / 128);
        assert(pow128(i + 1) == 128 * p);
        assert(acc2 + (w / 128) * pow128(i + 1) == acc + w * p) by (nonlinear_arith)
            requires
                acc2 == acc + (w % 128) * p,
                pow128(i + 1) == 128 * p,
        ;
    }
}

/// Decoding inverts encoding: the canonical leb128 encoding of any 32-bit
/// value decodes to that value, consuming exactly the encoded bytes,
/// whatever follows them.
pub proof fn lemma_decode_encode(value: u32, rest: Seq<u8>, offset: usize)
    ensures
        spec_encode(value as nat).len() <= 5,
        spec_decode(spec_encode(value as nat) + rest, offset) == Ok::<(u32, usize), Error>(
            (value, spec_encode(value as nat).len() as usize),
        ),
{
    let enc = spec_encode(value as nat);
    assert(pow128(5) == 0x800000000) by {
        reveal_with_fuel(pow128, 6);
    }
    lemma_encode_len(value as nat, 5);
    let s = enc + rest;
    assert(s.subrange(0, enc.len() as int) =~= enc);
    lemma_scan_encoded(s, offset, 0, 0, value as nat);
    assert(pow128(0) == 1);
    assert(0 + (value as nat) * pow128(0) == value as nat);
}

/// A successful decode consumes between 1 and 8 bytes of `data`.
/// A decoded value spans 1 to 8 bytes of the input: every byte but the
/// last has the continuation bit set, the last has it clear.
pub proof fn lemma_decode_consumed(data: Seq<u8>, offset: usize)
    ensures
        spec_decode(data, offset) matches Ok((_, n)) ==> {
            &&& 1 <= n <= data.len()
            &&& n <= MAX_LEB128_BYTES
            &&& data[n - 1] & 0x80 == 0
            &&& forall|i: int| 0 <= i < n - 1 ==> #[trigger] data[i] & 0x80 != 0
        },
{
    lemma_scan_consumed(data, offset, 0, 0);
}

proof fn lemma_scan_consumed(data: Seq<u8>, offset: usize, i: nat, acc: nat)
    ensures
        leb128_scan(data, offset, i, acc) matches Ok((_, n)) ==> {
            &&& i + 1 <= n <= data.len()
            &&& n <= MAX_LEB128_BYTES
            &&& data[n - 1] & 0x80 == 0
            &&& forall|j: int| i <= j < n - 1 ==> #[trigger] data[j] & 0x80 != 0
        },
    decreases MAX_LEB128_BYTES - i,
{
    if i < MAX_LEB128_BYTES && i < data.len() {
        let b = data[i as int];
        assert(b < 128 <==> b & 0x80 == 0) by (bit_vector);
    }
    if i < MAX_LEB128_BYTES && i < data.len() {
        let acc2 = acc + (data[i as int] % 128) as nat * pow128(i);
        lemma_scan_consumed(data, offset, i + 1, acc2);
    }
}

proof fn lemma_scan_extension(data: Seq<u8>, t: Seq<u8>, offset: usize, i: nat, acc: nat)
    ensures
        !(leb128_scan(data, offset, i, acc) is Err && leb128_scan(data, offset, i, acc)->Err_0 is UnexpectedEof)
            ==> leb128_scan(data + t, offset, i, acc) == leb128_scan(data, offset, i, acc),
    decreases MAX_LEB128_BYTES - i,
{
    if i < MAX_LEB128_BYTES && i < data.len() {
        assert((data + t)[i as int] == data[i as int]);
        let acc2 = acc + (data[i as int] % 128) as nat * pow128(i);
        if data[i as int] >= 128 {
            lemma_scan_extension(data, t, offset, i + 1, acc2);
        }
    }
}

/// Decoding is decided by the bytes already there: unless it ran out of
/// input, appending bytes does not change its outcome.
pub proof fn lemma_decode_extension(data: Seq<u8>, t: Seq<u8>, offset: usize)
    ensures
        !(spec_decode(data, offset) is Err && spec_decode(data, offset)->Err_0 is UnexpectedEof)
            ==> spec_decode(data + t, offset) == spec_decode(data, offset),
{
    lemma_scan_extension(data, t, offset, 0, 0);
}

} // verus!
