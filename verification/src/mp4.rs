//! Minimal ISO-BMFF demuxer for IAMF-in-MP4 (non-fragmented): finds the
//! track whose sample entry is `iamf`, pulls the descriptor OBUs from its
//! `iacb` configuration box, and concatenates the samples (temporal units)
//! in order. Fragmented (`moof`) files are rejected.

use vstd::prelude::*;

use crate::error::{decimal, format_number, format_two_numbers};
use crate::reader::be32;

verus! {

/// A demuxed IAMF track.
pub struct Mp4Iamf {
    /// Descriptor OBUs from the `iacb` box.
    pub descriptors: Vec<u8>,
    /// All samples (temporal-unit OBUs) concatenated in track order.
    pub media: Vec<u8>,
}

/// A demuxing failure, with its description.
#[derive(Debug)]
pub struct Mp4Error(pub String);

impl Mp4Error {
    /// The text `Display` shows: `mp4: ` and the description.
    pub fn message(&self) -> (m: String)
        ensures
            m@ == "mp4: "@ + self.0@,
    {
        "mp4: ".to_owned().concat(self.0.as_str())
    }
}

/// Outcome of a step of the demuxer: a value, or the description of the
/// failure.
pub type Mp4Result<T> = Result<T, Seq<char>>;

pub open spec fn be64(b: Seq<u8>) -> u64 {
    (be32(b.subrange(0, 4)) * 0x1_0000_0000 + be32(b.subrange(4, 8))) as u64
}

pub open spec fn fourcc(a: u8, b: u8, c: u8, d: u8) -> Seq<u8> {
    seq![a, b, c, d]
}

fn err<T>(message: String) -> (r: Result<T, Mp4Error>)
    ensures
        r matches Err(e) && e.0@ == message@,
{
    Err(Mp4Error(message))
}

/// `data` is an MP4 file: its second 4 bytes are `ftyp`.
pub open spec fn spec_is_mp4(data: Seq<u8>) -> bool {
    data.len() >= 8 && data.subrange(4, 8) == fourcc(0x66, 0x74, 0x79, 0x70)
}

pub fn is_mp4(data: &[u8]) -> (b: bool)
    ensures
        b == spec_is_mp4(data@),
{
    if data.len() < 8 {
        return false;
    }
    let r = data[4] == 0x66 && data[5] == 0x74 && data[6] == 0x79 && data[7] == 0x70;
    assert(r == (data@.subrange(4, 8) =~= fourcc(0x66, 0x74, 0x79, 0x70)));
    r
}

// -- Box walking ------------------------------------------------------------

/// `n` bytes at `pos`.
pub open spec fn mp4_bytes(d: Seq<u8>, pos: int, n: int) -> Mp4Result<(Seq<u8>, int)> {
    if d.len() - pos < n {
        Err("truncated box"@)
    } else {
        Ok((d.subrange(pos, pos + n), pos + n))
    }
}

/// A big-endian u32 at `pos`.
pub open spec fn mp4_u32(d: Seq<u8>, pos: int) -> Mp4Result<(u32, int)> {
    match mp4_bytes(d, pos, 4) {
        Err(e) => Err(e),
        Ok((b, p)) => Ok((be32(b), p)),
    }
}

/// A big-endian u64 at `pos`.
pub open spec fn mp4_u64(d: Seq<u8>, pos: int) -> Mp4Result<(u64, int)> {
    match mp4_bytes(d, pos, 8) {
        Err(e) => Err(e),
        Ok((b, p)) => Ok((be64(b), p)),
    }
}

/// One box at `pos`: its fourcc, its body, and the position after it.
/// Its 32-bit size counts the header; 0 means "to the end of the enclosing
/// space" and 1 that a 64-bit size follows the fourcc.
pub open spec fn spec_next_box(d: Seq<u8>, pos: int) -> Mp4Result<(Seq<u8>, Seq<u8>, int)> {
    match mp4_u32(d, pos) {
        Err(e) => Err(e),
        Ok((size32, p1)) => match mp4_bytes(d, p1, 4) {
            Err(e) => Err(e),
            Ok((name, p2)) => {
                let sized: Mp4Result<(int, int)> = if size32 == 0 {
                    Ok((d.len() - pos, p2))
                } else if size32 == 1 {
                    match mp4_u64(d, p2) {
                        Err(e) => Err(e),
                        Ok((large, p3)) => if large > usize::MAX {
                            Err("box too large"@)
                        } else {
                            Ok((large as int, p3))
                        },
                    }
                } else {
                    Ok((size32 as int, p2))
                };
                match sized {
                    Err(e) => Err(e),
                    Ok((size, ph)) => {
                        let header = ph - pos;
                        if size < header {
                            Err("box size smaller than header"@)
                        } else if d.len() - ph < size - header {
                            Err("truncated box"@)
                        } else {
                            Ok((name, d.subrange(ph, ph + size - header), ph + size - header))
                        }
                    },
                }
            },
        },
    }
}

pub proof fn lemma_next_box_advances(d: Seq<u8>, pos: int)
    requires
        0 <= pos <= d.len(),
    ensures
        spec_next_box(d, pos) matches Ok((_, _, next)) ==> pos + 8 <= next <= d.len(),
{
}

/// A bounds-checked big-endian reader over box contents.
pub struct Cursor<'a> {
    data: &'a [u8],
    pos: usize,
}

impl<'a> Cursor<'a> {
    #[verifier::type_invariant]
    spec fn inv(self) -> bool {
        self.pos <= self.data@.len()
    }

    pub closed spec fn input(&self) -> Seq<u8> {
        self.data@
    }

    pub closed spec fn cursor(&self) -> int {
        self.pos as int
    }

    pub fn new(data: &'a [u8]) -> (c: Self)
        ensures
            c.input() == data@,
            c.cursor() == 0,
    {
        Cursor { data, pos: 0 }
    }

    pub fn remaining(&self) -> (n: usize)
        ensures
            n == self.input().len() - self.cursor(),
            0 <= self.cursor() <= self.input().len() <= usize::MAX,
    {
        proof {
            use_type_invariant(self);
        }
        self.data.len() - self.pos
    }

    pub fn bytes(&mut self, n: usize) -> (r: Result<&'a [u8], Mp4Error>)
        ensures
            final(self).input() == old(self).input(),
            match (r, mp4_bytes(old(self).input(), old(self).cursor(), n as int)) {
                (Ok(b), Ok((sb, p))) => b@ == sb && final(self).cursor() == p,
                (Err(e), Err(m)) => e.0@ == m && final(self).cursor() == old(self).cursor(),
                _ => false,
            },
    {
        proof {
            use_type_invariant(&*self);
        }
        if self.remaining() < n {
            return err("truncated box".to_owned());
        }
        let out = &self.data[self.pos..self.pos + n];
        self.pos = self.pos + n;
        Ok(out)
    }

    pub fn u8(&mut self) -> (r: Result<u8, Mp4Error>)
        ensures
            final(self).input() == old(self).input(),
            match (r, mp4_bytes(old(self).input(), old(self).cursor(), 1)) {
                (Ok(v), Ok((sb, p))) => v == sb[0] && final(self).cursor() == p,
                (Err(e), Err(m)) => e.0@ == m && final(self).cursor() == old(self).cursor(),
                _ => false,
            },
    {
        let b = self.bytes(1)?;
        Ok(b[0])
    }

    pub fn u32(&mut self) -> (r: Result<u32, Mp4Error>)
        ensures
            final(self).input() == old(self).input(),
            match (r, mp4_u32(old(self).input(), old(self).cursor())) {
                (Ok(v), Ok((sv, p))) => v == sv && final(self).cursor() == p,
                (Err(e), Err(m)) => e.0@ == m && final(self).cursor() == old(self).cursor(),
                _ => false,
            },
    {
        let b = self.bytes(4)?;
        Ok(b[0] as u32 * 0x100_0000 + b[1] as u32 * 0x1_0000 + b[2] as u32 * 0x100 + b[3] as u32)
    }

    pub fn u64(&mut self) -> (r: Result<u64, Mp4Error>)
        ensures
            final(self).input() == old(self).input(),
            match (r, mp4_u64(old(self).input(), old(self).cursor())) {
                (Ok(v), Ok((sv, p))) => v == sv && final(self).cursor() == p,
                (Err(e), Err(m)) => e.0@ == m && final(self).cursor() == old(self).cursor(),
                _ => false,
            },
    {
        let b = self.bytes(8)?;
        let hi = b[0] as u64 * 0x100_0000 + b[1] as u64 * 0x1_0000 + b[2] as u64 * 0x100 + b[3] as u64;
        let lo = b[4] as u64 * 0x100_0000 + b[5] as u64 * 0x1_0000 + b[6] as u64 * 0x100 + b[7] as u64;
        assert(hi == be32(b@.subrange(0, 4)));
        assert(lo == be32(b@.subrange(4, 8)));
        Ok(hi * 0x1_0000_0000 + lo)
    }

    /// Reads one box header, returning (fourcc, body).
    pub fn next_box(&mut self) -> (r: Result<([u8; 4], &'a [u8]), Mp4Error>)
        ensures
            final(self).input() == old(self).input(),
            match (r, spec_next_box(old(self).input(), old(self).cursor())) {
                (Ok((name, body)), Ok((sname, sbody, p))) => name@ == sname && body@ == sbody && final(self).cursor()
                    == p,
                (Err(e), Err(m)) => e.0@ == m,
                _ => false,
            },
    {
        proof {
            use_type_invariant(&*self);
        }
        let start = self.pos;
        let size32 = self.u32()?;
        let name = self.bytes(4)?;
        let fourcc: [u8; 4] = [name[0], name[1], name[2], name[3]];
        assert(fourcc@ =~= name@);
        let size: usize = if size32 == 0 {
            self.data.len() - start
        } else if size32 == 1 {
            let large = self.u64()?;
            if large > usize::MAX as u64 {
                return err("box too large".to_owned());
            }
            large as usize
        } else {
            size32 as usize
        };
        proof {
            use_type_invariant(&*self);
        }
        let header = self.pos - start;
        if size < header {
            return err("box size smaller than header".to_owned());
        }
        let body_len = size - header;
        if self.data.len() - self.pos < body_len {
            return err("truncated box".to_owned());
        }
        let body = &self.data[self.pos..self.pos + body_len];
        self.pos = self.pos + body_len;
        Ok((fourcc, body))
    }
}

/// The body of the first `fourcc` box from `pos` on; the walk stops at
/// fewer than 8 bytes or a malformed box.
pub open spec fn spec_find_box(d: Seq<u8>, pos: int, name: Seq<u8>) -> Option<Seq<u8>>
    decreases d.len() - pos,
{
    if pos < 0 || d.len() - pos < 8 {
        None
    } else {
        match spec_next_box(d, pos) {
            Err(_) => None,
            Ok((n, body, next)) => if n == name {
                Some(body)
            } else {
                proof {
                    lemma_next_box_advances(d, pos);
                }
                spec_find_box(d, next, name)
            },
        }
    }
}

/// The bodies of all `fourcc` boxes from `pos` on, up to the first
/// malformed box.
pub open spec fn spec_boxes(d: Seq<u8>, pos: int, name: Seq<u8>) -> Seq<Seq<u8>>
    decreases d.len() - pos,
{
    if pos < 0 || d.len() - pos < 8 {
        Seq::empty()
    } else {
        match spec_next_box(d, pos) {
            Err(_) => Seq::empty(),
            Ok((n, body, next)) => {
                proof {
                    lemma_next_box_advances(d, pos);
                }
                if n == name {
                    seq![body] + spec_boxes(d, next, name)
                } else {
                    spec_boxes(d, next, name)
                }
            },
        }
    }
}

pub fn find_box<'a>(container: &'a [u8], name: [u8; 4]) -> (r: Option<&'a [u8]>)
    ensures
        match r {
            Some(b) => spec_find_box(container@, 0, name@) == Some(b@),
            None => spec_find_box(container@, 0, name@) is None,
        },
{
    let mut c = Cursor::new(container);
    while c.remaining() >= 8
        invariant
            c.input() == container@,
            0 <= c.cursor() <= container@.len(),
            spec_find_box(container@, c.cursor(), name@) == spec_find_box(container@, 0, name@),
        decreases container@.len() - c.cursor(),
    {
        let ghost pos = c.cursor();
        proof {
            lemma_next_box_advances(container@, pos);
        }
        match c.next_box() {
            Ok((n, body)) => {
                if n[0] == name[0] && n[1] == name[1] && n[2] == name[2] && n[3] == name[3] {
                    assert(n@ =~= name@);
                    return Some(body);
                }
                assert(n@ != name@) by {
                    if n@ == name@ {
                        assert(n@[0] == name@[0] && n@[1] == name@[1] && n@[2] == name@[2] && n@[3] == name@[3]);
                    }
                }
            },
            Err(_) => {
                return None;
            },
        }
    }
    None
}

pub fn boxes<'a>(container: &'a [u8], name: [u8; 4]) -> (r: Vec<&'a [u8]>)
    ensures
        r@.len() == spec_boxes(container@, 0, name@).len(),
        forall|i: int| 0 <= i < r@.len() ==> #[trigger] r@[i]@ == spec_boxes(container@, 0, name@)[i],
{
    let mut out: Vec<&'a [u8]> = Vec::new();
    let mut c = Cursor::new(container);
    while c.remaining() >= 8
        invariant
            c.input() == container@,
            0 <= c.cursor() <= container@.len(),
            out@.len() + spec_boxes(container@, c.cursor(), name@).len() == spec_boxes(container@, 0, name@).len(),
            forall|i: int| 0 <= i < out@.len() ==> #[trigger] out@[i]@ == spec_boxes(container@, 0, name@)[i],
            forall|i: int|
                0 <= i < spec_boxes(container@, c.cursor(), name@).len() ==> #[trigger] spec_boxes(
                    container@,
                    c.cursor(),
                    name@,
                )[i] == spec_boxes(container@, 0, name@)[out@.len() + i],
        decreases container@.len() - c.cursor(),
    {
        let ghost pos = c.cursor();
        proof {
            lemma_next_box_advances(container@, pos);
        }
        match c.next_box() {
            Ok((n, body)) => {
                if n[0] == name[0] && n[1] == name[1] && n[2] == name[2] && n[3] == name[3] {
                    assert(n@ =~= name@);
                    let ghost rest = spec_boxes(container@, c.cursor(), name@);
                    assert(spec_boxes(container@, pos, name@) == seq![body@] + rest);
                    assert(spec_boxes(container@, pos, name@)[0] == body@);
                    out.push(body);
                    assert forall|i: int| 0 <= i < rest.len() implies #[trigger] rest[i] == spec_boxes(
                        container@,
                        0,
                        name@,
                    )[out@.len() + i] by {
                        assert(rest[i] == spec_boxes(container@, pos, name@)[i + 1]);
                    }
                } else {
                    assert(n@ != name@) by {
                        if n@ == name@ {
                            assert(n@[0] == name@[0] && n@[1] == name@[1] && n@[2] == name@[2] && n@[3] == name@[3]);
                        }
                    }
                }
            },
            Err(_) => {
                return out;
            },
        }
    }
    out
}

// -- Track parsing ----------------------------------------------------------

pub open spec fn iacb_name() -> Seq<u8> {
    fourcc(0x69, 0x61, 0x63, 0x62)
}

pub open spec fn iamf_name() -> Seq<u8> {
    fourcc(0x69, 0x61, 0x6d, 0x66)
}

/// `configOBUs_size`: a leb128 whose 7-bit groups are or-ed in at shifts
/// 0, 7, 14, ..., each taken modulo 32.
pub open spec fn spec_iacb_size(b: Seq<u8>, pos: int, shift: u32, acc: u32) -> Mp4Result<(u32, int)>
    decreases b.len() - pos,
{
    match mp4_bytes(b, pos, 1) {
        Err(e) => Err(e),
        Ok((byte, p)) => {
            let acc2 = acc | (((byte[0] & 0x7f) as u32) << shift);
            if byte[0] & 0x80 == 0 || p > b.len() {
                Ok((acc2, p))
            } else {
                spec_iacb_size(b, p, ((shift + 7) % 32) as u32, acc2)
            }
        },
    }
}

/// The descriptor OBUs of an `iamf` sample entry: after the 28 bytes of
/// AudioSampleEntry fields, an `iacb` box of configuration version 1 holds
/// a leb128 size and that many bytes.
pub open spec fn spec_iamf_entry(body: Seq<u8>) -> Mp4Result<Seq<u8>> {
    if body.len() < 28 {
        Err("iamf sample entry too small"@)
    } else {
        match spec_find_box(body.subrange(28, body.len() as int), 0, iacb_name()) {
            None => Err("no iacb box"@),
            Some(iacb) => match mp4_bytes(iacb, 0, 1) {
                Err(e) => Err(e),
                Ok((v, p)) => if v[0] != 1 {
                    Err("unsupported iacb configuration_version "@ + decimal(v[0] as nat))
                } else {
                    match spec_iacb_size(iacb, p, 0, 0) {
                        Err(e) => Err(e),
                        Ok((size, q)) => match mp4_bytes(iacb, q, size as int) {
                            Err(e) => Err(e),
                            Ok((desc, _)) => Ok(desc),
                        },
                    }
                },
            },
        }
    }
}

/// The first `count` sample entries from `pos`: the descriptors of the
/// last `iamf` entry (or `found` when there is none).
pub open spec fn spec_stsd_entries(d: Seq<u8>, pos: int, count: nat, found: Option<Seq<u8>>) -> Mp4Result<
    Option<Seq<u8>>,
>
    decreases count,
{
    if count == 0 {
        Ok(found)
    } else {
        match spec_next_box(d, pos) {
            Err(e) => Err(e),
            Ok((name, body, next)) => if name != iamf_name() {
                spec_stsd_entries(d, next, (count - 1) as nat, found)
            } else {
                match spec_iamf_entry(body) {
                    Err(e) => Err(e),
                    Ok(desc) => spec_stsd_entries(d, next, (count - 1) as nat, Some(desc)),
                }
            },
        }
    }
}

/// `n` big-endian u32s from `pos`.
pub open spec fn spec_u32s(d: Seq<u8>, pos: int, n: nat) -> Mp4Result<(Seq<u32>, int)>
    decreases n,
{
    if n == 0 {
        Ok((Seq::empty(), pos))
    } else {
        match spec_u32s(d, pos, (n - 1) as nat) {
            Err(e) => Err(e),
            Ok((vs, p)) => match mp4_u32(d, p) {
                Err(e) => Err(e),
                Ok((v, q)) => Ok((vs.push(v), q)),
            },
        }
    }
}

/// `n` big-endian u64s from `pos`.
pub open spec fn spec_u64s(d: Seq<u8>, pos: int, n: nat) -> Mp4Result<(Seq<u64>, int)>
    decreases n,
{
    if n == 0 {
        Ok((Seq::empty(), pos))
    } else {
        match spec_u64s(d, pos, (n - 1) as nat) {
            Err(e) => Err(e),
            Ok((vs, p)) => match mp4_u64(d, p) {
                Err(e) => Err(e),
                Ok((v, q)) => Ok((vs.push(v), q)),
            },
        }
    }
}

/// `n` stsc entries from `pos`: (first_chunk, samples_per_chunk), each
/// followed by a sample_description_index.
pub open spec fn spec_run_entries(d: Seq<u8>, pos: int, n: nat) -> Mp4Result<(Seq<(u32, u32)>, int)>
    decreases n,
{
    if n == 0 {
        Ok((Seq::empty(), pos))
    } else {
        match spec_run_entries(d, pos, (n - 1) as nat) {
            Err(e) => Err(e),
            Ok((vs, p)) => match mp4_u32(d, p) {
                Err(e) => Err(e),
                Ok((first, p1)) => match mp4_u32(d, p1) {
                    Err(e) => Err(e),
                    Ok((per, p2)) => match mp4_u32(d, p2) {
                        Err(e) => Err(e),
                        Ok((_, p3)) => Ok((vs.push((first, per)), p3)),
                    },
                },
            },
        }
    }
}

/// The sample tables of a track.
pub struct SampleTables {
    /// Per-sample sizes in bytes.
    pub sizes: Vec<u32>,
    /// Chunk byte offsets in the file.
    pub chunk_offsets: Vec<u64>,
    /// (first_chunk, samples_per_chunk), 1-based as in stsc.
    pub chunk_runs: Vec<(u32, u32)>,
}

pub struct SpecSampleTables {
    pub sizes: Seq<u32>,
    pub chunk_offsets: Seq<u64>,
    pub chunk_runs: Seq<(u32, u32)>,
}

impl View for SampleTables {
    type V = SpecSampleTables;

    open spec fn view(&self) -> SpecSampleTables {
        SpecSampleTables { sizes: self.sizes@, chunk_offsets: self.chunk_offsets@, chunk_runs: self.chunk_runs@ }
    }
}

/// The descriptors from `stsd`: its version/flags, an entry count, then
/// the entries, of which the last `iamf` one counts.
pub open spec fn spec_stsd(stbl: Seq<u8>) -> Mp4Result<Seq<u8>> {
    match spec_find_box(stbl, 0, fourcc(0x73, 0x74, 0x73, 0x64)) {
        None => Err("no stsd"@),
        Some(sd) => match mp4_u32(sd, 0) {
            Err(e) => Err(e),
            Ok((_, p1)) => match mp4_u32(sd, p1) {
                Err(e) => Err(e),
                Ok((count, p2)) => match spec_stsd_entries(sd, p2, count as nat, None) {
                    Err(e) => Err(e),
                    Ok(None) => Err("no iamf sample entry in stsd"@),
                    Ok(Some(desc)) => Ok(desc),
                },
            },
        },
    }
}

/// The sample sizes from `stsz`: a uniform size for all samples, or
/// (when it is 0) one size per sample; at most 2^24 samples.
pub open spec fn spec_sizes(stbl: Seq<u8>) -> Mp4Result<Seq<u32>> {
    match spec_find_box(stbl, 0, fourcc(0x73, 0x74, 0x73, 0x7a)) {
        None => Err("no stsz"@),
        Some(z) => match mp4_u32(z, 0) {
            Err(e) => Err(e),
            Ok((_, p1)) => match mp4_u32(z, p1) {
                Err(e) => Err(e),
                Ok((uniform, p2)) => match mp4_u32(z, p2) {
                    Err(e) => Err(e),
                    Ok((count, p3)) => if count > 0x100_0000 {
                        Err("implausible sample count"@)
                    } else if uniform != 0 {
                        Ok(Seq::new(count as nat, |i: int| uniform))
                    } else {
                        match spec_u32s(z, p3, count as nat) {
                            Err(e) => Err(e),
                            Ok((vs, _)) => Ok(vs),
                        }
                    },
                },
            },
        },
    }
}

proof fn lemma_u32s_table(d: Seq<u8>, pos: int, n: nat)
    requires
        0 <= pos,
        pos + 4 * n <= d.len(),
    ensures
        spec_u32s(d, pos, n) == Ok::<(Seq<u32>, int), Seq<char>>(
            (Seq::new(n, |i: int| be32(d.subrange(pos + 4 * i, pos + 4 * i + 4))), pos + 4 * n),
        ),
    decreases n,
{
    if n > 0 {
        lemma_u32s_table(d, pos, (n - 1) as nat);
        let prev = Seq::new((n - 1) as nat, |i: int| be32(d.subrange(pos + 4 * i, pos + 4 * i + 4)));
        assert(prev.push(be32(d.subrange(pos + 4 * (n - 1), pos + 4 * (n - 1) + 4))) =~= Seq::new(
            n,
            |i: int| be32(d.subrange(pos + 4 * i, pos + 4 * i + 4)),
        ));
        let p = pos + 4 * (n - 1);
        assert(mp4_u32(d, p) == Ok::<(u32, int), Seq<char>>((be32(d.subrange(p, p + 4)), p + 4)));
    } else {
        assert(Seq::new(0, |i: int| be32(d.subrange(pos + 4 * i, pos + 4 * i + 4))) =~= Seq::<u32>::empty());
    }
}

/// The sample sizes of an `stsz` box (version/flags, sample_size,
/// sample_count, then the table): a nonzero sample_size gives
/// sample_count copies of it and no table is read; a zero sample_size
/// gives the table's sample_count big-endian entries; more than 2^24
/// samples are refused.
pub proof fn lemma_stsz_sizes(stbl: Seq<u8>)
    ensures
        match spec_find_box(stbl, 0, fourcc(0x73, 0x74, 0x73, 0x7a)) {
            None => spec_sizes(stbl) is Err,
            Some(z) => z.len() >= 12 ==> {
                let uniform = be32(z.subrange(4, 8));
                let count = be32(z.subrange(8, 12));
                &&& count > 0x100_0000 ==> spec_sizes(stbl) is Err
                &&& count <= 0x100_0000 && uniform != 0 ==> spec_sizes(stbl) == Ok::<Seq<u32>, Seq<char>>(
                    Seq::new(count as nat, |i: int| uniform),
                )
                &&& count <= 0x100_0000 && uniform == 0 && z.len() >= 12 + 4 * count ==> spec_sizes(stbl)
                    == Ok::<Seq<u32>, Seq<char>>(
                    Seq::new(count as nat, |i: int| be32(z.subrange(12 + 4 * i, 16 + 4 * i))),
                )
            },
        },
{
    if let Some(z) = spec_find_box(stbl, 0, fourcc(0x73, 0x74, 0x73, 0x7a)) {
        if z.len() >= 12 {
            let count = be32(z.subrange(8, 12));
            if z.len() >= 12 + 4 * count {
                lemma_u32s_table(z, 12, count as nat);
                assert(Seq::new(count as nat, |i: int| be32(z.subrange(12 + 4 * i, 12 + 4 * i + 4))) =~= Seq::new(
                    count as nat,
                    |i: int| be32(z.subrange(12 + 4 * i, 16 + 4 * i)),
                ));
            }
        }
    }
}

/// The chunk offsets from `stco` (32-bit) or else `co64` (64-bit).
pub open spec fn spec_offsets(stbl: Seq<u8>) -> Mp4Result<Seq<u64>> {
    match spec_find_box(stbl, 0, fourcc(0x73, 0x74, 0x63, 0x6f)) {
        Some(b) => match mp4_u32(b, 0) {
            Err(e) => Err(e),
            Ok((_, p1)) => match mp4_u32(b, p1) {
                Err(e) => Err(e),
                Ok((n, p2)) => match spec_u32s(b, p2, n as nat) {
                    Err(e) => Err(e),
                    Ok((vs, _)) => Ok(vs.map_values(|v: u32| v as u64)),
                },
            },
        },
        None => match spec_find_box(stbl, 0, fourcc(0x63, 0x6f, 0x36, 0x34)) {
            Some(b) => match mp4_u32(b, 0) {
                Err(e) => Err(e),
                Ok((_, p1)) => match mp4_u32(b, p1) {
                    Err(e) => Err(e),
                    Ok((n, p2)) => match spec_u64s(b, p2, n as nat) {
                        Err(e) => Err(e),
                        Ok((vs, _)) => Ok(vs),
                    },
                },
            },
            None => Err("no stco/co64"@),
        },
    }
}

/// The chunk runs from `stsc`.
pub open spec fn spec_runs(stbl: Seq<u8>) -> Mp4Result<Seq<(u32, u32)>> {
    match spec_find_box(stbl, 0, fourcc(0x73, 0x74, 0x73, 0x63)) {
        None => Err("no stsc"@),
        Some(b) => match mp4_u32(b, 0) {
            Err(e) => Err(e),
            Ok((_, p1)) => match mp4_u32(b, p1) {
                Err(e) => Err(e),
                Ok((n, p2)) => match spec_run_entries(b, p2, n as nat) {
                    Err(e) => Err(e),
                    Ok((vs, _)) => Ok(vs),
                },
            },
        },
    }
}

/// A sample table box: the `iamf` descriptors and the sample tables.
#[verifier::opaque]
pub open spec fn spec_parse_stbl(stbl: Seq<u8>) -> Mp4Result<(Seq<u8>, SpecSampleTables)> {
    match spec_stsd(stbl) {
        Err(e) => Err(e),
        Ok(desc) => match spec_sizes(stbl) {
            Err(e) => Err(e),
            Ok(sizes) => match spec_offsets(stbl) {
                Err(e) => Err(e),
                Ok(chunk_offsets) => match spec_runs(stbl) {
                    Err(e) => Err(e),
                    Ok(chunk_runs) => Ok((desc, SpecSampleTables { sizes, chunk_offsets, chunk_runs })),
                },
            },
        },
    }
}

proof fn lemma_u32s_err(d: Seq<u8>, pos: int, k: nat, n: nat)
    requires
        k <= n,
        spec_u32s(d, pos, k) is Err,
    ensures
        spec_u32s(d, pos, n) == spec_u32s(d, pos, k),
    decreases n,
{
    if n > k {
        lemma_u32s_err(d, pos, k, (n - 1) as nat);
    }
}

proof fn lemma_u64s_err(d: Seq<u8>, pos: int, k: nat, n: nat)
    requires
        k <= n,
        spec_u64s(d, pos, k) is Err,
    ensures
        spec_u64s(d, pos, n) == spec_u64s(d, pos, k),
    decreases n,
{
    if n > k {
        lemma_u64s_err(d, pos, k, (n - 1) as nat);
    }
}

proof fn lemma_runs_err(d: Seq<u8>, pos: int, k: nat, n: nat)
    requires
        k <= n,
        spec_run_entries(d, pos, k) is Err,
    ensures
        spec_run_entries(d, pos, n) == spec_run_entries(d, pos, k),
    decreases n,
{
    if n > k {
        lemma_runs_err(d, pos, k, (n - 1) as nat);
    }
}

fn read_u32s(c: &mut Cursor, n: u32) -> (r: Result<Vec<u32>, Mp4Error>)
    ensures
        final(c).input() == old(c).input(),
        match (r, spec_u32s(old(c).input(), old(c).cursor(), n as nat)) {
            (Ok(v), Ok((sv, p))) => v@ == sv && final(c).cursor() == p,
            (Err(e), Err(m)) => e.0@ == m,
            _ => false,
        },
{
    let ghost start = c.cursor();
    let mut out: Vec<u32> = Vec::new();
    let mut i: u32 = 0;
    while i < n
        invariant
            i <= n,
            c.input() == old(c).input(),
            start == old(c).cursor(),
            spec_u32s(c.input(), start, i as nat) == Ok::<(Seq<u32>, int), Seq<char>>((out@, c.cursor())),
        decreases n - i,
    {
        let v = match c.u32() {
            Ok(v) => v,
            Err(e) => {
                proof {
                    lemma_u32s_err(c.input(), start, (i + 1) as nat, n as nat);
                }
                return Err(e);
            },
        };
        out.push(v);
        i = i + 1;
    }
    Ok(out)
}

fn read_u64s(c: &mut Cursor, n: u32) -> (r: Result<Vec<u64>, Mp4Error>)
    ensures
        final(c).input() == old(c).input(),
        match (r, spec_u64s(old(c).input(), old(c).cursor(), n as nat)) {
            (Ok(v), Ok((sv, p))) => v@ == sv && final(c).cursor() == p,
            (Err(e), Err(m)) => e.0@ == m,
            _ => false,
        },
{
    let ghost start = c.cursor();
    let mut out: Vec<u64> = Vec::new();
    let mut i: u32 = 0;
    while i < n
        invariant
            i <= n,
            c.input() == old(c).input(),
            start == old(c).cursor(),
            spec_u64s(c.input(), start, i as nat) == Ok::<(Seq<u64>, int), Seq<char>>((out@, c.cursor())),
        decreases n - i,
    {
        let v = match c.u64() {
            Ok(v) => v,
            Err(e) => {
                proof {
                    lemma_u64s_err(c.input(), start, (i + 1) as nat, n as nat);
                }
                return Err(e);
            },
        };
        out.push(v);
        i = i + 1;
    }
    Ok(out)
}

fn read_runs(c: &mut Cursor, n: u32) -> (r: Result<Vec<(u32, u32)>, Mp4Error>)
    ensures
        final(c).input() == old(c).input(),
        match (r, spec_run_entries(old(c).input(), old(c).cursor(), n as nat)) {
            (Ok(v), Ok((sv, p))) => v@ == sv && final(c).cursor() == p,
            (Err(e), Err(m)) => e.0@ == m,
            _ => false,
        },
{
    let ghost start = c.cursor();
    let mut out: Vec<(u32, u32)> = Vec::new();
    let mut i: u32 = 0;
    while i < n
        invariant
            i <= n,
            c.input() == old(c).input(),
            start == old(c).cursor(),
            spec_run_entries(c.input(), start, i as nat) == Ok::<(Seq<(u32, u32)>, int), Seq<char>>(
                (out@, c.cursor()),
            ),
        decreases n - i,
    {
        let ghost before = c.cursor();
        let first_chunk = match c.u32() {
            Ok(v) => v,
            Err(e) => {
                proof {
                    lemma_runs_err(c.input(), start, (i + 1) as nat, n as nat);
                }
                return Err(e);
            },
        };
        let samples_per_chunk = match c.u32() {
            Ok(v) => v,
            Err(e) => {
                proof {
                    lemma_runs_err(c.input(), start, (i + 1) as nat, n as nat);
                }
                return Err(e);
            },
        };
        // sample_description_index
        if let Err(e) = c.u32() {
            proof {
                lemma_runs_err(c.input(), start, (i + 1) as nat, n as nat);
            }
            return Err(e);
        }
        out.push((first_chunk, samples_per_chunk));
        i = i + 1;
    }
    Ok(out)
}

fn read_iacb_size(b: &mut Cursor) -> (r: Result<u32, Mp4Error>)
    ensures
        final(b).input() == old(b).input(),
        match (r, spec_iacb_size(old(b).input(), old(b).cursor(), 0, 0)) {
            (Ok(v), Ok((sv, p))) => v == sv && final(b).cursor() == p,
            (Err(e), Err(m)) => e.0@ == m,
            _ => false,
        },
{
    let mut size: u32 = 0;
    let mut shift: u32 = 0;
    proof {
        use_type_invariant(&*b);
    }
    loop
        invariant
            b.input() == old(b).input(),
            shift < 32,
            0 <= b.cursor() <= b.input().len(),
            spec_iacb_size(b.input(), b.cursor(), shift, size) == spec_iacb_size(old(b).input(), old(b).cursor(), 0, 0),
        decreases b.input().len() - b.cursor(),
    {
        let byte = b.u8()?;
        size = size | (((byte & 0x7f) as u32) << shift);
        if byte & 0x80 == 0 {
            return Ok(size);
        }
        shift = (shift + 7) % 32;
    }
}

fn parse_iamf_entry(body: &[u8]) -> (r: Result<Vec<u8>, Mp4Error>)
    ensures
        match (r, spec_iamf_entry(body@)) {
            (Ok(v), Ok(sv)) => v@ == sv,
            (Err(e), Err(m)) => e.0@ == m,
            _ => false,
        },
{
    // AudioSampleEntry: 6 reserved + 2 data_reference_index, then
    // version/revision/vendor (8), channelcount (2), samplesize (2),
    // pre_defined (2), reserved (2), samplerate (4) = 28 bytes.
    if body.len() < 28 {
        return err("iamf sample entry too small".to_owned());
    }
    let fields = &body[28..body.len()];
    let iacb = match find_box(fields, [0x69, 0x61, 0x63, 0x62]) {
        Some(iacb) => iacb,
        None => {
            assert([0x69u8, 0x61, 0x63, 0x62]@ =~= iacb_name());
            return err("no iacb box".to_owned());
        },
    };
    assert([0x69u8, 0x61, 0x63, 0x62]@ =~= iacb_name());
    let mut b = Cursor::new(iacb);
    let version = b.u8()?;
    if version != 1 {
        let m = format_number("unsupported iacb configuration_version ", version as usize, "");
        proof {
            reveal_strlit("");
            assert(m@ =~= "unsupported iacb configuration_version "@ + decimal(version as nat));
        }
        return err(m);
    }
    let size = read_iacb_size(&mut b)?;
    let desc = b.bytes(size as usize)?;
    Ok(slice_to_vec(desc))
}

/// A copy of `s`.
fn slice_to_vec(s: &[u8]) -> (v: Vec<u8>)
    ensures
        v@ == s@,
{
    let mut v: Vec<u8> = Vec::new();
    let mut i: usize = 0;
    while i < s.len()
        invariant
            i <= s@.len(),
            v@ == s@.subrange(0, i as int),
        decreases s.len() - i,
    {
        v.push(s[i]);
        i = i + 1;
    }
    v
}

fn parse_stsd(stbl: &[u8]) -> (r: Result<Vec<u8>, Mp4Error>)
    ensures
        match (r, spec_stsd(stbl@)) {
            (Ok(v), Ok(sv)) => v@ == sv,
            (Err(e), Err(m)) => e.0@ == m,
            _ => false,
        },
{
    assert([0x73u8, 0x74, 0x73, 0x64]@ =~= fourcc(0x73, 0x74, 0x73, 0x64));
    let stsd = match find_box(stbl, [0x73, 0x74, 0x73, 0x64]) {
        Some(b) => b,
        None => return err("no stsd".to_owned()),
    };
    let mut c = Cursor::new(stsd);
    c.u32()?;  // version/flags
    let entry_count = c.u32()?;
    match stsd_entries(&mut c, entry_count)? {
        Some(d) => Ok(d),
        None => err("no iamf sample entry in stsd".to_owned()),
    }
}

fn stsd_entries(c: &mut Cursor, entry_count: u32) -> (r: Result<Option<Vec<u8>>, Mp4Error>)
    ensures
        match (r, spec_stsd_entries(old(c).input(), old(c).cursor(), entry_count as nat, None)) {
            (Ok(Some(v)), Ok(Some(sv))) => v@ == sv,
            (Ok(None), Ok(None)) => true,
            (Err(e), Err(m)) => e.0@ == m,
            _ => false,
        },
{
    let ghost d = c.input();
    let ghost goal = spec_stsd_entries(c.input(), c.cursor(), entry_count as nat, None);
    assert(goal == spec_stsd_entries(old(c).input(), old(c).cursor(), entry_count as nat, None));
    let ghost mut found: Option<Seq<u8>> = None;
    let mut descriptors: Option<Vec<u8>> = None;
    let mut i: u32 = 0;
    while i < entry_count
        invariant
            i <= entry_count,
            c.input() == d,
            d == old(c).input(),
            goal == spec_stsd_entries(old(c).input(), old(c).cursor(), entry_count as nat, None),
            found == (match descriptors {
                Some(v) => Some(v@),
                None => None::<Seq<u8>>,
            }),
            spec_stsd_entries(d, c.cursor(), (entry_count - i) as nat, found) == goal,
        decreases entry_count - i,
    {
        let ghost pre = c.cursor();
        let (name, body) = match c.next_box() {
            Ok(nb) => nb,
            Err(e) => {
                assert(spec_stsd_entries(d, pre, (entry_count - i) as nat, found) == Err::<Option<Seq<u8>>, Seq<char>>(spec_next_box(d, pre)->Err_0));
                return Err(e);
            },
        };
        if name[0] == 0x69 && name[1] == 0x61 && name[2] == 0x6d && name[3] == 0x66 {
            assert(name@ =~= iamf_name());
            let desc = match parse_iamf_entry(body) {
                Ok(desc) => desc,
                Err(e) => {
                    return Err(e);
                },
            };
            proof {
                found = Some(desc@);
            }
            descriptors = Some(desc);
        } else {
            assert(name@ != iamf_name()) by {
                if name@ == iamf_name() {
                    assert(name@[0] == 0x69 && name@[1] == 0x61 && name@[2] == 0x6d && name@[3] == 0x66);
                }
            }
        }
        i = i + 1;
    }
    Ok(descriptors)
}

fn parse_sizes(stbl: &[u8]) -> (r: Result<Vec<u32>, Mp4Error>)
    ensures
        match (r, spec_sizes(stbl@)) {
            (Ok(v), Ok(sv)) => v@ == sv,
            (Err(e), Err(m)) => e.0@ == m,
            _ => false,
        },
{
    assert([0x73u8, 0x74, 0x73, 0x7a]@ =~= fourcc(0x73, 0x74, 0x73, 0x7a));
    let stsz = match find_box(stbl, [0x73, 0x74, 0x73, 0x7a]) {
        Some(b) => b,
        None => return err("no stsz".to_owned()),
    };
    let mut c = Cursor::new(stsz);
    c.u32()?;  // version/flags
    let uniform = c.u32()?;
    let sample_count = c.u32()?;
    if sample_count > 0x100_0000 {
        return err("implausible sample count".to_owned());
    }
    if uniform != 0 {
        let mut sizes: Vec<u32> = Vec::new();
        let mut i: u32 = 0;
        while i < sample_count
            invariant
                i <= sample_count,
                sizes@ == Seq::new(i as nat, |k: int| uniform),
            decreases sample_count - i,
        {
            sizes.push(uniform);
            i = i + 1;
        }
        Ok(sizes)
    } else {
        read_u32s(&mut c, sample_count)
    }
}

fn widen(v: Vec<u32>) -> (w: Vec<u64>)
    ensures
        w@ == v@.map_values(|x: u32| x as u64),
{
    let mut w: Vec<u64> = Vec::new();
    let mut i: usize = 0;
    while i < v.len()
        invariant
            i <= v@.len(),
            w@ == v@.subrange(0, i as int).map_values(|x: u32| x as u64),
        decreases v.len() - i,
    {
        w.push(v[i] as u64);
        i = i + 1;
        assert(w@ =~= v@.subrange(0, i as int).map_values(|x: u32| x as u64));
    }
    assert(v@.subrange(0, v@.len() as int) =~= v@);
    w
}

fn parse_offsets(stbl: &[u8]) -> (r: Result<Vec<u64>, Mp4Error>)
    ensures
        match (r, spec_offsets(stbl@)) {
            (Ok(v), Ok(sv)) => v@ == sv,
            (Err(e), Err(m)) => e.0@ == m,
            _ => false,
        },
{
    assert([0x73u8, 0x74, 0x63, 0x6f]@ =~= fourcc(0x73, 0x74, 0x63, 0x6f));
    assert([0x63u8, 0x6f, 0x36, 0x34]@ =~= fourcc(0x63, 0x6f, 0x36, 0x34));
    if let Some(stco) = find_box(stbl, [0x73, 0x74, 0x63, 0x6f]) {
        let mut c = Cursor::new(stco);
        c.u32()?;
        let n = c.u32()?;
        let v = read_u32s(&mut c, n)?;
        Ok(widen(v))
    } else if let Some(co64) = find_box(stbl, [0x63, 0x6f, 0x36, 0x34]) {
        let mut c = Cursor::new(co64);
        c.u32()?;
        let n = c.u32()?;
        read_u64s(&mut c, n)
    } else {
        err("no stco/co64".to_owned())
    }
}

fn parse_runs(stbl: &[u8]) -> (r: Result<Vec<(u32, u32)>, Mp4Error>)
    ensures
        match (r, spec_runs(stbl@)) {
            (Ok(v), Ok(sv)) => v@ == sv,
            (Err(e), Err(m)) => e.0@ == m,
            _ => false,
        },
{
    assert([0x73u8, 0x74, 0x73, 0x63]@ =~= fourcc(0x73, 0x74, 0x73, 0x63));
    let stsc = match find_box(stbl, [0x73, 0x74, 0x73, 0x63]) {
        Some(b) => b,
        None => return err("no stsc".to_owned()),
    };
    let mut c = Cursor::new(stsc);
    c.u32()?;
    let n = c.u32()?;
    read_runs(&mut c, n)
}

/// Parses a sample table box: the descriptors of its `iamf` sample entry
/// and its sample size, chunk offset and chunk run tables.
pub fn parse_stbl(stbl: &[u8]) -> (r: Result<(Vec<u8>, SampleTables), Mp4Error>)
    ensures
        match (r, spec_parse_stbl(stbl@)) {
            (Ok((d, t)), Ok((sd, st))) => d@ == sd && t@ == st,
            (Err(e), Err(m)) => e.0@ == m,
            _ => false,
        },
{
    reveal(spec_parse_stbl);
    let descriptors = parse_stsd(stbl)?;
    let sizes = parse_sizes(stbl)?;
    let chunk_offsets = parse_offsets(stbl)?;
    let chunk_runs = parse_runs(stbl)?;
    Ok((descriptors, SampleTables { sizes, chunk_offsets, chunk_runs }))
}

// -- Demuxing ---------------------------------------------------------------

/// `prefix` before the media of a successful step.
pub open spec fn then_media(prefix: Seq<u8>, r: Mp4Result<(Seq<u8>, nat)>) -> Mp4Result<(Seq<u8>, nat)> {
    match r {
        Ok((m, s)) => Ok((prefix + m, s)),
        Err(e) => Err(e),
    }
}

/// Up to `left` samples of a chunk starting at byte `offset` of the file,
/// from sample number `sample` on (stopping at the end of the size table):
/// their bytes and the next sample number.
pub open spec fn spec_chunk(file: Seq<u8>, sizes: Seq<u32>, offset: int, left: nat, sample: nat) -> Mp4Result<
    (Seq<u8>, nat),
>
    decreases left,
{
    if left == 0 || sample >= sizes.len() {
        Ok((Seq::empty(), sample))
    } else {
        let end = offset + sizes[sample as int];
        if end > file.len() {
            Err("sample outside file bounds"@)
        } else {
            then_media(file.subrange(offset, end), spec_chunk(file, sizes, end, (left - 1) as nat, sample + 1))
        }
    }
}

/// The chunks `chunk..last` (1-based) of a run of `per` samples each; a
/// chunk without an offset ends the run.
pub open spec fn spec_run_chunks(
    file: Seq<u8>,
    t: SpecSampleTables,
    chunk: int,
    last: int,
    per: nat,
    sample: nat,
) -> Mp4Result<(Seq<u8>, nat)>
    decreases last - chunk,
{
    if chunk >= last || chunk == 0 || chunk - 1 >= t.chunk_offsets.len() {
        Ok((Seq::empty(), sample))
    } else {
        match spec_chunk(file, t.sizes, t.chunk_offsets[chunk - 1] as int, per, sample) {
            Err(e) => Err(e),
            Ok((m, s)) => then_media(m, spec_run_chunks(file, t, chunk + 1, last, per, s)),
        }
    }
}

/// The chunk runs from run `r` on: each covers its chunks up to the next
/// run's first chunk (the last run: up to the last chunk).
pub open spec fn spec_expand(file: Seq<u8>, t: SpecSampleTables, r: nat, sample: nat) -> Mp4Result<(Seq<u8>, nat)>
    decreases t.chunk_runs.len() - r,
{
    if r >= t.chunk_runs.len() {
        Ok((Seq::empty(), sample))
    } else {
        let (first, per) = t.chunk_runs[r as int];
        let last = if r + 1 < t.chunk_runs.len() {
            t.chunk_runs[(r + 1) as int].0 as int
        } else {
            t.chunk_offsets.len() + 1int
        };
        match spec_run_chunks(file, t, first as int, last, per as nat, sample) {
            Err(e) => Err(e),
            Ok((m, s)) => then_media(m, spec_expand(file, t, r + 1, s)),
        }
    }
}

/// The sample tables of a track, when it has `mdia`/`minf`/`stbl`.
pub open spec fn spec_track(trak: Seq<u8>) -> Option<Mp4Result<(Seq<u8>, SpecSampleTables)>> {
    match spec_find_box(trak, 0, fourcc(0x6d, 0x64, 0x69, 0x61)) {
        None => None,
        Some(mdia) => match spec_find_box(mdia, 0, fourcc(0x6d, 0x69, 0x6e, 0x66)) {
            None => None,
            Some(minf) => match spec_find_box(minf, 0, fourcc(0x73, 0x74, 0x62, 0x6c)) {
                None => None,
                Some(stbl) => Some(spec_parse_stbl(stbl)),
            },
        },
    }
}

/// The first of the tracks from `i` on whose sample table parses.
pub open spec fn spec_find_track(traks: Seq<Seq<u8>>, i: nat) -> Option<(Seq<u8>, SpecSampleTables)>
    decreases traks.len() - i,
{
    if i >= traks.len() {
        None
    } else {
        match spec_track(traks[i as int]) {
            Some(Ok(found)) => Some(found),
            _ => spec_find_track(traks, i + 1),
        }
    }
}

pub open spec fn has_moof(file: Seq<u8>) -> bool {
    spec_find_box(file, 0, fourcc(0x6d, 0x6f, 0x6f, 0x66)) is Some
}

/// A non-fragmented MP4 file's IAMF track: the descriptors of the first
/// track with a parsable `iamf` sample table, and its samples concatenated
/// in chunk order, all of which the chunk tables must cover.
pub open spec fn spec_demux(file: Seq<u8>) -> Mp4Result<(Seq<u8>, Seq<u8>)> {
    match spec_find_box(file, 0, fourcc(0x6d, 0x6f, 0x6f, 0x76)) {
        None => Err("no moov box"@),
        Some(moov) => match spec_find_track(spec_boxes(moov, 0, fourcc(0x74, 0x72, 0x61, 0x6b)), 0) {
            None => if has_moof(file) {
                Err("fragmented MP4 is not supported"@)
            } else {
                Err("no IAMF audio track found"@)
            },
            Some((desc, t)) => if t.sizes.len() == 0 && has_moof(file) {
                Err("fragmented MP4 is not supported"@)
            } else {
                match spec_expand(file, t, 0, 0) {
                    Err(e) => Err(e),
                    Ok((media, sample)) => if sample < t.sizes.len() {
                        Err(
                            "chunk tables cover only "@ + decimal(sample) + " of "@ + decimal(t.sizes.len())
                                + " samples"@,
                        )
                    } else {
                        Ok((desc, media))
                    },
                }
            },
        },
    }
}

proof fn lemma_chunk_sample_bound(file: Seq<u8>, sizes: Seq<u32>, offset: int, left: nat, sample: nat)
    requires
        sample <= sizes.len(),
    ensures
        spec_chunk(file, sizes, offset, left, sample) matches Ok((_, s)) ==> sample <= s <= sizes.len(),
    decreases left,
{
    if left > 0 && sample < sizes.len() {
        lemma_chunk_sample_bound(file, sizes, offset + sizes[sample as int], (left - 1) as nat, sample + 1);
    }
}

/// Appends the samples of one chunk.
fn expand_chunk(file: &[u8], sizes: &Vec<u32>, base: u64, per: u32, sample: usize, media: &mut Vec<u8>) -> (r: Result<
    usize,
    Mp4Error,
>)
    requires
        sample <= sizes@.len(),
    ensures
        match (r, spec_chunk(file@, sizes@, base as int, per as nat, sample as nat)) {
            (Ok(s), Ok((m, ss))) => s == ss && final(media)@ == old(media)@ + m,
            (Err(e), Err(msg)) => e.0@ == msg,
            _ => false,
        },
{
    let ghost goal = spec_chunk(file@, sizes@, base as int, per as nat, sample as nat);
    let ghost start = media@;
    let mut offset: u64 = base;
    let mut next = sample;
    let mut k: u32 = 0;
    while k < per
        invariant
            k <= per,
            goal == spec_chunk(file@, sizes@, base as int, per as nat, sample as nat),
            next <= sizes@.len(),
            then_media(media@, spec_chunk(file@, sizes@, offset as int, (per - k) as nat, next as nat)) == then_media(
                start,
                goal,
            ),
        ensures
            k >= per || next >= sizes@.len(),
            next <= sizes@.len(),
            then_media(media@, spec_chunk(file@, sizes@, offset as int, (per - k) as nat, next as nat)) == then_media(
                start,
                goal,
            ),
        decreases per - k,
    {
        if next >= sizes.len() {
            break;
        }
        let size = sizes[next];
        let len = file.len();
        if offset > len as u64 {
            proof {
                let cur = spec_chunk(file@, sizes@, offset as int, (per - k) as nat, next as nat);
                assert(cur == Err::<(Seq<u8>, nat), Seq<char>>("sample outside file bounds"@));
                assert(goal == cur);
            }
            return err("sample outside file bounds".to_owned());
        }
        let off = offset as usize;
        assert(off == offset);
        if size as usize > len - off {
            proof {
                let cur = spec_chunk(file@, sizes@, offset as int, (per - k) as nat, next as nat);
                assert(cur == Err::<(Seq<u8>, nat), Seq<char>>("sample outside file bounds"@));
                assert(goal == cur);
            }
            return err("sample outside file bounds".to_owned());
        }
        let end: usize = off + size as usize;
        let ghost before = media@;
        let mut i: usize = off;
        while i < end
            invariant
                off <= i <= end <= file@.len(),
                media@ == before + file@.subrange(off as int, i as int),
            decreases end - i,
        {
            media.push(file[i]);
            assert(media@ =~= before + file@.subrange(off as int, i + 1));
            i = i + 1;
        }
        assert(then_media(before, then_media(file@.subrange(off as int, end as int), spec_chunk(file@, sizes@, end as int, (per - k - 1) as nat, (next + 1) as nat)))
            == then_media(media@, spec_chunk(file@, sizes@, end as int, (per - k - 1) as nat, (next + 1) as nat))) by {
            match spec_chunk(file@, sizes@, end as int, (per - k - 1) as nat, (next + 1) as nat) {
                Ok((m, s)) => {
                    assert(before + (file@.subrange(off as int, end as int) + m) =~= media@ + m);
                },
                Err(_) => {},
            }
        }
        offset = end as u64;
        next = next + 1;
        k = k + 1;
    }
    proof {
        assert(media@ + Seq::<u8>::empty() =~= media@);
        match goal {
            Ok((m, s)) => {
                assert(start + m =~= media@);
            },
            Err(_) => {},
        }
    }
    Ok(next)
}

/// Appends the samples of the chunks `first..last` of one run.
fn expand_run(
    file: &[u8],
    t: &SampleTables,
    first: u128,
    last: u128,
    per: u32,
    sample: usize,
    media: &mut Vec<u8>,
) -> (r: Result<usize, Mp4Error>)
    requires
        sample <= t.sizes@.len(),
    ensures
        match (r, spec_run_chunks(file@, t@, first as int, last as int, per as nat, sample as nat)) {
            (Ok(s), Ok((m, ss))) => s == ss && final(media)@ == old(media)@ + m,
            (Err(e), Err(msg)) => e.0@ == msg,
            _ => false,
        },
{
    let ghost goal = spec_run_chunks(file@, t@, first as int, last as int, per as nat, sample as nat);
    let ghost start = media@;
    let mut next = sample;
    let mut chunk = first;
    while chunk < last
        invariant
            goal == spec_run_chunks(file@, t@, first as int, last as int, per as nat, sample as nat),
            next <= t.sizes@.len(),
            then_media(media@, spec_run_chunks(file@, t@, chunk as int, last as int, per as nat, next as nat))
                == then_media(start, goal),
        ensures
            then_media(media@, spec_run_chunks(file@, t@, chunk as int, last as int, per as nat, next as nat))
                == then_media(start, goal),
            next <= t.sizes@.len(),
            chunk >= last || chunk == 0 || chunk - 1 >= t.chunk_offsets@.len(),
        decreases last - chunk,
    {
        // A chunk number without an offset (including 0) ends the run.
        if chunk == 0 || chunk - 1 >= t.chunk_offsets.len() as u128 {
            break;
        }
        let base = t.chunk_offsets[(chunk - 1) as usize];
        let ghost before = media@;
        proof {
            lemma_chunk_sample_bound(file@, t@.sizes, base as int, per as nat, next as nat);
        }
        let ghost rest_spec = spec_chunk(file@, t@.sizes, base as int, per as nat, next as nat);
        match expand_chunk(file, &t.sizes, base, per, next, media) {
            Ok(s) => {
                proof {
                    let m = rest_spec->Ok_0.0;
                    let tail = spec_run_chunks(file@, t@, chunk + 1, last as int, per as nat, s as nat);
                    match tail {
                        Ok((m2, _)) => {
                            assert(before + (m + m2) =~= (before + m) + m2);
                        },
                        Err(_) => {},
                    }
                }
                next = s;
            },
            Err(e) => {
                return Err(e);
            },
        }
        chunk = chunk + 1;
    }
    proof {
        assert(media@ + Seq::<u8>::empty() =~= media@);
        match goal {
            Ok((m, s)) => {
                assert(start + m =~= media@);
            },
            Err(_) => {},
        }
    }
    Ok(next)
}

/// Appends the samples of the chunk runs, in order; returns how many
/// samples the tables covered.
fn expand_runs(file: &[u8], t: &SampleTables, media: &mut Vec<u8>) -> (r: Result<usize, Mp4Error>)
    ensures
        match (r, spec_expand(file@, t@, 0, 0)) {
            (Ok(s), Ok((m, ss))) => s == ss && final(media)@ == old(media)@ + m,
            (Err(e), Err(msg)) => e.0@ == msg,
            _ => false,
        },
{
    let ghost goal = spec_expand(file@, t@, 0, 0);
    let ghost start = media@;
    let mut next: usize = 0;
    let mut run: usize = 0;
    while run < t.chunk_runs.len()
        invariant
            goal == spec_expand(file@, t@, 0, 0),
            run <= t.chunk_runs@.len(),
            next <= t.sizes@.len(),
            then_media(media@, spec_expand(file@, t@, run as nat, next as nat)) == then_media(start, goal),
        decreases t.chunk_runs.len() - run,
    {
        let (first_chunk, per_chunk) = t.chunk_runs[run];
        let last_chunk: u128 = if run + 1 < t.chunk_runs.len() {
            t.chunk_runs[run + 1].0 as u128
        } else {
            t.chunk_offsets.len() as u128 + 1
        };
        let ghost before = media@;
        let ghost run_spec = spec_run_chunks(file@, t@, first_chunk as int, last_chunk as int, per_chunk as nat, next as nat);
        match expand_run(file, t, first_chunk as u128, last_chunk, per_chunk, next, media) {
            Ok(s) => {
                proof {
                    lemma_run_sample_bound(file@, t@, first_chunk as int, last_chunk as int, per_chunk as nat, next as nat);
                    let m = run_spec->Ok_0.0;
                    let tail = spec_expand(file@, t@, (run + 1) as nat, s as nat);
                    match tail {
                        Ok((m2, _)) => {
                            assert(before + (m + m2) =~= (before + m) + m2);
                        },
                        Err(_) => {},
                    }
                }
                next = s;
            },
            Err(e) => {
                return Err(e);
            },
        }
        run = run + 1;
    }
    proof {
        assert(media@ + Seq::<u8>::empty() =~= media@);
        match goal {
            Ok((m, s)) => {
                assert(start + m =~= media@);
            },
            Err(_) => {},
        }
    }
    Ok(next)
}

proof fn lemma_run_sample_bound(file: Seq<u8>, t: SpecSampleTables, chunk: int, last: int, per: nat, sample: nat)
    requires
        sample <= t.sizes.len(),
    ensures
        spec_run_chunks(file, t, chunk, last, per, sample) matches Ok((_, s)) ==> sample <= s <= t.sizes.len(),
    decreases last - chunk,
{
    if !(chunk >= last || chunk == 0 || chunk - 1 >= t.chunk_offsets.len()) {
        lemma_chunk_sample_bound(file, t.sizes, t.chunk_offsets[chunk - 1] as int, per, sample);
        match spec_chunk(file, t.sizes, t.chunk_offsets[chunk - 1] as int, per, sample) {
            Ok((_, s)) => lemma_run_sample_bound(file, t, chunk + 1, last, per, s),
            Err(_) => {},
        }
    }
}

/// The sample tables of a track, when it has `mdia`/`minf`/`stbl`.
fn track_tables(trak: &[u8]) -> (r: Option<Result<(Vec<u8>, SampleTables), Mp4Error>>)
    ensures
        match (r, spec_track(trak@)) {
            (None, None) => true,
            (Some(Ok((d, t))), Some(Ok((sd, st)))) => d@ == sd && t@ == st,
            (Some(Err(e)), Some(Err(m))) => e.0@ == m,
            _ => false,
        },
{
    assert([0x6du8, 0x64, 0x69, 0x61]@ =~= fourcc(0x6d, 0x64, 0x69, 0x61));
    assert([0x6du8, 0x69, 0x6e, 0x66]@ =~= fourcc(0x6d, 0x69, 0x6e, 0x66));
    assert([0x73u8, 0x74, 0x62, 0x6c]@ =~= fourcc(0x73, 0x74, 0x62, 0x6c));
    let mdia = find_box(trak, [0x6d, 0x64, 0x69, 0x61])?;
    let minf = find_box(mdia, [0x6d, 0x69, 0x6e, 0x66])?;
    let stbl = find_box(minf, [0x73, 0x74, 0x62, 0x6c])?;
    Some(parse_stbl(stbl))
}

/// The first track of `traks` that holds IAMF sample tables.
fn first_track(traks: &Vec<&[u8]>, Ghost(straks): Ghost<Seq<Seq<u8>>>) -> (found: Option<(Vec<u8>, SampleTables)>)
    requires
        traks@.len() == straks.len(),
        forall|j: int| 0 <= j < traks@.len() ==> #[trigger] traks@[j]@ == straks[j],
    ensures
        match found {
            Some((d, t)) => spec_find_track(straks, 0) == Some((d@, t@)),
            None => spec_find_track(straks, 0) is None,
        },
{
    let mut found: Option<(Vec<u8>, SampleTables)> = None;
    let mut i: usize = 0;
    while i < traks.len()
        invariant_except_break
            found is None,
        invariant
            i <= traks@.len(),
            traks@.len() == straks.len(),
            forall|j: int| 0 <= j < traks@.len() ==> #[trigger] traks@[j]@ == straks[j],
            spec_find_track(straks, i as nat) == spec_find_track(straks, 0),
        ensures
            match found {
                Some((d, t)) => spec_find_track(straks, 0) == Some((d@, t@)),
                None => spec_find_track(straks, 0) is None,
            },
        decreases traks.len() - i,
    {
        match track_tables(traks[i]) {
            Some(Ok(parsed)) => {
                found = Some(parsed);
                break;
            },
            _ => {},
        }
        i = i + 1;
    }
    found
}

/// Demuxes an IAMF track from a non-fragmented MP4 file.
pub fn demux(file: &[u8]) -> (r: Result<Mp4Iamf, Mp4Error>)
    ensures
        match (r, spec_demux(file@)) {
            (Ok(out), Ok((d, m))) => out.descriptors@ == d && out.media@ == m,
            (Err(e), Err(msg)) => e.0@ == msg,
            _ => false,
        },
{
    assert([0x6du8, 0x6f, 0x6f, 0x76]@ =~= fourcc(0x6d, 0x6f, 0x6f, 0x76));
    assert([0x74u8, 0x72, 0x61, 0x6b]@ =~= fourcc(0x74, 0x72, 0x61, 0x6b));
    assert([0x6du8, 0x6f, 0x6f, 0x66]@ =~= fourcc(0x6d, 0x6f, 0x6f, 0x66));
    let moov = match find_box(file, [0x6d, 0x6f, 0x6f, 0x76]) {
        Some(b) => b,
        None => return err("no moov box".to_owned()),
    };
    let traks = boxes(moov, [0x74, 0x72, 0x61, 0x6b]);
    let found = first_track(&traks, Ghost(spec_boxes(moov@, 0, fourcc(0x74, 0x72, 0x61, 0x6b))));
    let (descriptors, tables) = match found {
        Some(f) => f,
        None => {
            if find_box(file, [0x6d, 0x6f, 0x6f, 0x66]).is_some() {
                return err("fragmented MP4 is not supported".to_owned());
            }
            return err("no IAMF audio track found".to_owned());
        },
    };
    if tables.sizes.len() == 0 && find_box(file, [0x6d, 0x6f, 0x6f, 0x66]).is_some() {
        return err("fragmented MP4 is not supported".to_owned());
    }
    // Expand chunk runs into per-sample file offsets.
    let mut media: Vec<u8> = Vec::new();
    let sample = expand_runs(file, &tables, &mut media)?;
    proof {
        assert(Seq::<u8>::empty() + media@ =~= media@);
    }
    if sample < tables.sizes.len() {
        return err(
            format_two_numbers("chunk tables cover only ", sample, " of ", tables.sizes.len(), " samples"),
        );
    }
    Ok(Mp4Iamf { descriptors, media })
}

} // verus!
