//! Bounds-checked cursor over untrusted input, and the functional model of
//! its reads.

use vstd::prelude::*;
use vstd::utf8::{decode_utf8, valid_utf8};

use crate::error::Error;
use crate::leb128;

verus! {

/// Outcome of a syntax element read at a position of an input: the value
/// and the position after it, or the error.
pub type SpecResult<T> = Result<(T, int), Error>;

/// `res` (ending at position `end`) is exactly what `spec` describes.
pub open spec fn agrees<T>(res: Result<T, Error>, end: int, spec: SpecResult<T>) -> bool {
    match spec {
        Ok((v, p)) => res == Ok::<T, Error>(v) && end == p,
        Err(e) => res == Err::<T, Error>(e),
    }
}

/// A result with its value taken by view.
pub open spec fn view_res<T: View>(res: Result<T, Error>) -> Result<T::V, Error> {
    match res {
        Ok(v) => Ok(v@),
        Err(e) => Err(e),
    }
}

pub open spec fn eof<T>(offset: int) -> SpecResult<T> {
    Err(Error::UnexpectedEof { offset: offset as usize })
}

/// One byte.
pub open spec fn spec_read_u8(s: Seq<u8>, pos: int) -> SpecResult<u8> {
    if 0 <= pos < s.len() {
        Ok((s[pos], pos + 1))
    } else {
        eof(pos)
    }
}

/// `len` raw bytes.
pub open spec fn spec_read_bytes(s: Seq<u8>, pos: int, len: int) -> SpecResult<Seq<u8>> {
    if 0 <= pos && 0 <= len && pos + len <= s.len() {
        Ok((s.subrange(pos, pos + len), pos + len))
    } else {
        eof(s.len() as int)
    }
}

/// A leb128 value.
pub open spec fn spec_read_leb128(s: Seq<u8>, pos: int) -> SpecResult<u32> {
    match leb128::spec_decode(s.subrange(pos, s.len() as int), pos as usize) {
        Ok((v, n)) => Ok((v, pos + n)),
        Err(e) => Err(e),
    }
}

pub open spec fn be16(b: Seq<u8>) -> u16 {
    (b[0] * 256 + b[1]) as u16
}

pub open spec fn be32(b: Seq<u8>) -> u32 {
    (b[0] * 0x1000000 + b[1] * 0x10000 + b[2] * 0x100 + b[3]) as u32
}

/// Two's complement reading of a 16-bit pattern.
pub open spec fn signed16(u: u16) -> i16 {
    (if u < 0x8000 {
        u as int
    } else {
        u - 0x10000
    }) as i16
}

pub open spec fn spec_read_u16_be(s: Seq<u8>, pos: int) -> SpecResult<u16> {
    match spec_read_bytes(s, pos, 2) {
        Ok((b, p)) => Ok((be16(b), p)),
        Err(e) => Err(e),
    }
}

pub open spec fn spec_read_i16_be(s: Seq<u8>, pos: int) -> SpecResult<i16> {
    match spec_read_u16_be(s, pos) {
        Ok((v, p)) => Ok((signed16(v), p)),
        Err(e) => Err(e),
    }
}

pub open spec fn spec_read_u32_be(s: Seq<u8>, pos: int) -> SpecResult<u32> {
    match spec_read_bytes(s, pos, 4) {
        Ok((b, p)) => Ok((be32(b), p)),
        Err(e) => Err(e),
    }
}

/// What `String::from_utf8_lossy` makes of `bytes` (a function of the bytes
/// alone; on valid UTF-8 it is the decoded text).
pub uninterp spec fn lossy_utf8(bytes: Seq<u8>) -> Seq<char>;

/// Longest string window: 128 bytes including the terminator.
pub const MAX_STRING_BYTES: usize = 128;

/// Index of the first NUL byte in `w`, if any.
pub open spec fn first_nul(w: Seq<u8>) -> Option<int> {
    if exists|k: int| 0 <= k < w.len() && w[k] == 0 {
        Some(choose|k: int| 0 <= k < w.len() && w[k] == 0 && forall|j: int| 0 <= j < k ==> w[j] != 0)
    } else {
        None
    }
}

/// A NUL-terminated string within the next `min(remaining, 128)` bytes.
pub open spec fn spec_read_string(s: Seq<u8>, pos: int) -> SpecResult<Seq<char>> {
    let limit = if s.len() - pos < MAX_STRING_BYTES {
        s.len() - pos
    } else {
        MAX_STRING_BYTES as int
    };
    let window = s.subrange(pos, pos + limit);
    match first_nul(window) {
        Some(len) => Ok((lossy_utf8(window.subrange(0, len)), pos + len + 1)),
        None => eof(pos + limit),
    }
}

/// `String::from_utf8_lossy(bytes).into_owned()`.
#[verifier::external_body]
fn utf8_lossy(bytes: &[u8]) -> (text: String)
    ensures
        text@ == lossy_utf8(bytes@),
        valid_utf8(bytes@) ==> text@ == decode_utf8(bytes@),
{
    String::from_utf8_lossy(bytes).into_owned()
}

/// A bounds-checked cursor over untrusted input.
#[derive(Debug, Clone, Copy)]
pub struct ByteReader<'a> {
    data: &'a [u8],
    pos: usize,
}

impl<'a> ByteReader<'a> {
    #[verifier::type_invariant]
    spec fn inv(self) -> bool {
        self.pos <= self.data@.len()
    }

    /// The whole input.
    pub closed spec fn input(&self) -> Seq<u8> {
        self.data@
    }

    /// The read position.
    pub closed spec fn cursor(&self) -> int {
        self.pos as int
    }

    pub fn new(data: &'a [u8]) -> (r: Self)
        ensures
            r.input() == data@,
            r.cursor() == 0,
            r.input().len() <= usize::MAX,
    {
        let _ = data.len();
        Self { data, pos: 0 }
    }

    /// Absolute byte offset from the start of the input.
    pub fn position(&self) -> (p: usize)
        ensures
            p == self.cursor(),
            p <= self.input().len(),
            self.input().len() <= usize::MAX,
    {
        proof {
            use_type_invariant(self);
        }
        let _ = self.data.len();
        self.pos
    }

    pub fn remaining(&self) -> (n: usize)
        ensures
            n == self.input().len() - self.cursor(),
            self.cursor() <= self.input().len(),
    {
        proof {
            use_type_invariant(self);
        }
        self.data.len() - self.pos
    }

    pub fn is_empty(&self) -> (b: bool)
        ensures
            b == (self.cursor() == self.input().len()),
            self.cursor() <= self.input().len(),
    {
        self.remaining() == 0
    }

    pub fn read_u8(&mut self) -> (res: Result<u8, Error>)
        ensures
            final(self).input() == old(self).input(),
            final(self).cursor() <= final(self).input().len(),
            res is Err ==> final(self).cursor() == old(self).cursor(),
            agrees(res, final(self).cursor(), spec_read_u8(old(self).input(), old(self).cursor())),
    {
        proof {
            use_type_invariant(&*self);
        }
        if self.pos >= self.data.len() {
            return Err(Error::UnexpectedEof { offset: self.pos });
        }
        let byte = self.data[self.pos];
        self.pos = self.pos + 1;
        Ok(byte)
    }

    pub fn read_leb128(&mut self) -> (res: Result<u32, Error>)
        ensures
            final(self).input() == old(self).input(),
            final(self).cursor() <= final(self).input().len(),
            res is Err ==> final(self).cursor() == old(self).cursor(),
            agrees(res, final(self).cursor(), spec_read_leb128(old(self).input(), old(self).cursor())),
    {
        proof {
            use_type_invariant(&*self);
        }
        let data: &'a [u8] = self.data;
        let tail = &data[self.pos..data.len()];
        let (value, consumed) = leb128::decode(tail, self.pos)?;
        proof {
            leb128::lemma_decode_consumed(tail@, self.pos);
        }
        self.pos = self.pos + consumed;
        Ok(value)
    }

    pub fn read_u16_be(&mut self) -> (res: Result<u16, Error>)
        ensures
            final(self).input() == old(self).input(),
            final(self).cursor() <= final(self).input().len(),
            res is Err ==> final(self).cursor() == old(self).cursor(),
            agrees(res, final(self).cursor(), spec_read_u16_be(old(self).input(), old(self).cursor())),
    {
        let bytes = self.read_bytes(2)?;
        Ok((bytes[0] as u16) * 256 + bytes[1] as u16)
    }

    pub fn read_i16_be(&mut self) -> (res: Result<i16, Error>)
        ensures
            final(self).input() == old(self).input(),
            final(self).cursor() <= final(self).input().len(),
            res is Err ==> final(self).cursor() == old(self).cursor(),
            agrees(res, final(self).cursor(), spec_read_i16_be(old(self).input(), old(self).cursor())),
    {
        let u = self.read_u16_be()?;
        let v = u as i16;
        assert(v == signed16(u)) by (bit_vector)
            requires
                v == u as i16,
        ;
        Ok(v)
    }

    pub fn read_u32_be(&mut self) -> (res: Result<u32, Error>)
        ensures
            final(self).input() == old(self).input(),
            final(self).cursor() <= final(self).input().len(),
            res is Err ==> final(self).cursor() == old(self).cursor(),
            agrees(res, final(self).cursor(), spec_read_u32_be(old(self).input(), old(self).cursor())),
    {
        let bytes = self.read_bytes(4)?;
        Ok((bytes[0] as u32) * 0x1000000 + (bytes[1] as u32) * 0x10000 + (bytes[2] as u32) * 0x100
            + bytes[3] as u32)
    }

    pub fn read_fourcc(&mut self) -> (res: Result<[u8; 4], Error>)
        ensures
            final(self).input() == old(self).input(),
            final(self).cursor() <= final(self).input().len(),
            res is Err ==> final(self).cursor() == old(self).cursor(),
            agrees(view_res(res), final(self).cursor(), spec_read_bytes(old(self).input(), old(self).cursor(), 4)),
    {
        let bytes = self.read_bytes(4)?;
        let out = [bytes[0], bytes[1], bytes[2], bytes[3]];
        assert(out@ =~= bytes@);
        Ok(out)
    }

    /// Reads a NUL-terminated UTF-8 string of at most 128 bytes including
    /// the terminator (IAMF annotations). Invalid UTF-8
    /// is replaced rather than rejected.
    pub fn read_string(&mut self) -> (res: Result<String, Error>)
        ensures
            final(self).input() == old(self).input(),
            final(self).cursor() <= final(self).input().len(),
            res is Err ==> final(self).cursor() == old(self).cursor(),
            agrees(view_res(res), final(self).cursor(), spec_read_string(old(self).input(), old(self).cursor())),
    {
        proof {
            use_type_invariant(&*self);
        }
        let start = self.pos;
        let left = self.data.len() - start;
        let limit = if left < MAX_STRING_BYTES {
            left
        } else {
            MAX_STRING_BYTES
        };
        let data: &'a [u8] = self.data;
        let window = &data[start..start + limit];
        let mut len: usize = 0;
        while len < limit && window[len] != 0
            invariant
                limit == window@.len(),
                len <= limit,
                forall|j: int| 0 <= j < len ==> window@[j] != 0,
            decreases limit - len,
        {
            len = len + 1;
        }
        if len == limit {
            assert(first_nul(window@) is None);
            return Err(Error::UnexpectedEof { offset: start + limit });
        }
        proof {
            let k = choose|k: int| 0 <= k < window@.len() && window@[k] == 0 && forall|j: int| 0 <= j < k ==> window@[j] != 0;
            assert(window@[len as int] == 0);
            assert(k == len);
        }
        self.pos = start + len + 1;
        let text = utf8_lossy(&window[0..len]);
        Ok(text)
    }

    /// Skips `len` bytes.
    pub fn skip(&mut self, len: usize) -> (res: Result<(), Error>)
        ensures
            final(self).input() == old(self).input(),
            final(self).cursor() <= final(self).input().len(),
            res is Err ==> final(self).cursor() == old(self).cursor(),
            match spec_read_bytes(old(self).input(), old(self).cursor(), len as int) {
                Ok((_, p)) => res is Ok && final(self).cursor() == p,
                Err(e) => res == Err::<(), Error>(e),
            },
    {
        match self.read_bytes(len) {
            Ok(_) => Ok(()),
            Err(e) => Err(e),
        }
    }

    /// Consumes and returns all remaining bytes.
    pub fn rest(&mut self) -> (bytes: &'a [u8])
        ensures
            final(self).input() == old(self).input(),
            bytes@ == old(self).input().subrange(old(self).cursor(), old(self).input().len() as int),
            final(self).cursor() == final(self).input().len(),
            old(self).cursor() <= old(self).input().len(),
    {
        proof {
            use_type_invariant(&*self);
        }
        let data: &'a [u8] = self.data;
        let bytes = &data[self.pos..data.len()];
        self.pos = data.len();
        bytes
    }

    pub fn read_bytes(&mut self, len: usize) -> (res: Result<&'a [u8], Error>)
        ensures
            final(self).input() == old(self).input(),
            final(self).cursor() <= final(self).input().len(),
            res is Err ==> final(self).cursor() == old(self).cursor(),
            agrees(view_res(res), final(self).cursor(), spec_read_bytes(old(self).input(), old(self).cursor(), len as int)),
    {
        proof {
            use_type_invariant(&*self);
        }
        let data: &'a [u8] = self.data;
        if len > data.len() - self.pos {
            return Err(Error::UnexpectedEof { offset: data.len() });
        }
        let end = self.pos + len;
        let bytes = &data[self.pos..end];
        self.pos = end;
        Ok(bytes)
    }
}

/// `n` consecutive items read by `item`, starting at `pos`.
pub open spec fn spec_list<T>(s: Seq<u8>, pos: int, n: nat, item: spec_fn(Seq<u8>, int) -> SpecResult<T>) -> SpecResult<Seq<T>>
    decreases n,
{
    if n == 0 {
        Ok((Seq::empty(), pos))
    } else {
        match spec_list(s, pos, (n - 1) as nat, item) {
            Ok((xs, p)) => match item(s, p) {
                Ok((x, q)) => Ok((xs.push(x), q)),
                Err(e) => Err(e),
            },
            Err(e) => Err(e),
        }
    }
}

/// `count` items, after checking that `count` does not exceed the bytes
/// left (every item takes at least one byte, so a larger count is a
/// truncated or hostile input).
pub open spec fn spec_bounded_list<T>(s: Seq<u8>, pos: int, count: u32, item: spec_fn(Seq<u8>, int) -> SpecResult<T>) -> SpecResult<Seq<T>> {
    if count > s.len() - pos {
        eof(pos)
    } else {
        spec_list(s, pos, count as nat, item)
    }
}

/// Once an item of a list fails, every longer list fails the same way.
pub proof fn lemma_list_err_extends<T>(s: Seq<u8>, pos: int, k: nat, m: nat, item: spec_fn(Seq<u8>, int) -> SpecResult<T>)
    requires
        k <= m,
        spec_list(s, pos, k, item) is Err,
    ensures
        spec_list(s, pos, m, item) == spec_list(s, pos, k, item),
    decreases m,
{
    if m > k {
        lemma_list_err_extends(s, pos, k, (m - 1) as nat, item);
    }
}

pub open spec fn leb128_item() -> spec_fn(Seq<u8>, int) -> SpecResult<u32> {
    |s: Seq<u8>, p: int| spec_read_leb128(s, p)
}

pub open spec fn string_item() -> spec_fn(Seq<u8>, int) -> SpecResult<Seq<char>> {
    |s: Seq<u8>, p: int| spec_read_string(s, p)
}

pub open spec fn i16_item() -> spec_fn(Seq<u8>, int) -> SpecResult<i16> {
    |s: Seq<u8>, p: int| spec_read_i16_be(s, p)
}

/// Each element taken by view.
pub open spec fn views<T: View>(v: Seq<T>) -> Seq<T::V> {
    v.map_values(|x: T| x@)
}

} // verus!
