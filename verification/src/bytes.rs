//! Little-endian integers in byte sequences, and a reader over bytes in memory.

use vstd::prelude::*;
use vstd::utf8::{decode_utf8, encode_utf8, valid_utf8};

verus! {

/// The 16-bit integer whose little-endian bytes start at `pos`.
pub open spec fn u16_at(s: Seq<u8>, pos: int) -> u16 {
    (s[pos] + 0x100 * s[pos + 1]) as u16
}

/// The 32-bit integer whose little-endian bytes start at `pos`.
pub open spec fn u32_at(s: Seq<u8>, pos: int) -> u32 {
    (s[pos] + 0x100 * s[pos + 1] + 0x1_0000 * s[pos + 2] + 0x100_0000 * s[pos + 3]) as u32
}

/// The 64-bit integer whose little-endian bytes start at `pos`.
pub open spec fn u64_at(s: Seq<u8>, pos: int) -> u64 {
    (u32_at(s, pos) + 0x1_0000_0000 * u32_at(s, pos + 4)) as u64
}

/// The two little-endian bytes of an integer.
pub open spec fn u16_bytes(v: u16) -> Seq<u8> {
    seq![(v % 0x100) as u8, (v / 0x100) as u8]
}

/// The four little-endian bytes of an integer.
pub open spec fn u32_bytes(v: u32) -> Seq<u8> {
    seq![
        (v % 0x100) as u8,
        (v / 0x100 % 0x100) as u8,
        (v / 0x1_0000 % 0x100) as u8,
        (v / 0x100_0000) as u8,
    ]
}

/// The eight little-endian bytes of an integer.
pub open spec fn u64_bytes(v: u64) -> Seq<u8> {
    u32_bytes((v % 0x1_0000_0000) as u32) + u32_bytes((v / 0x1_0000_0000) as u32)
}

/// Reading back two bytes that were written gives the integer.
pub proof fn u16_round_trip(before: Seq<u8>, v: u16, after: Seq<u8>)
    ensures
        u16_at(before + u16_bytes(v) + after, before.len() as int) == v,
{
    let s = before + u16_bytes(v) + after;
    let p = before.len() as int;
    assert(s[p] == u16_bytes(v)[0] && s[p + 1] == u16_bytes(v)[1]);
}

/// Reading back four bytes that were written gives the integer.
pub proof fn u32_round_trip(before: Seq<u8>, v: u32, after: Seq<u8>)
    ensures
        u32_at(before + u32_bytes(v) + after, before.len() as int) == v,
{
    let s = before + u32_bytes(v) + after;
    let p = before.len() as int;
    assert(s[p] == u32_bytes(v)[0] && s[p + 1] == u32_bytes(v)[1] && s[p + 2] == u32_bytes(v)[2]
        && s[p + 3] == u32_bytes(v)[3]);
}

/// Reading back eight bytes that were written gives the integer.
pub proof fn u64_round_trip(before: Seq<u8>, v: u64, after: Seq<u8>)
    ensures
        u64_at(before + u64_bytes(v) + after, before.len() as int) == v,
{
    let low = (v % 0x1_0000_0000) as u32;
    let high = (v / 0x1_0000_0000) as u32;
    u32_round_trip(before, low, u32_bytes(high) + after);
    u32_round_trip(before + u32_bytes(low), high, after);
    assert(before + u64_bytes(v) + after =~= before + u32_bytes(low) + (u32_bytes(high) + after));
    assert(before + u64_bytes(v) + after =~= (before + u32_bytes(low)) + u32_bytes(high) + after);
}

/// Reads a 16-bit little-endian integer.
pub fn get_u16(s: &[u8], pos: usize) -> (r: u16)
    requires
        pos + 2 <= s@.len(),
    ensures
        r == u16_at(s@, pos as int),
{
    s[pos] as u16 + 0x100 * (s[pos + 1] as u16)
}

/// Reads a 32-bit little-endian integer.
pub fn get_u32(s: &[u8], pos: usize) -> (r: u32)
    requires
        pos + 4 <= s@.len(),
    ensures
        r == u32_at(s@, pos as int),
{
    s[pos] as u32 + 0x100 * (s[pos + 1] as u32) + 0x1_0000 * (s[pos + 2] as u32) + 0x100_0000 * (
    s[pos + 3] as u32)
}

/// Reads a 64-bit little-endian integer.
pub fn get_u64(s: &[u8], pos: usize) -> (r: u64)
    requires
        pos + 8 <= s@.len(),
    ensures
        r == u64_at(s@, pos as int),
{
    assert(s.len() >= pos + 8);
    get_u32(s, pos) as u64 + 0x1_0000_0000 * (get_u32(s, pos + 4) as u64)
}

/// Appends the two little-endian bytes of an integer.
pub fn put_u16(out: &mut Vec<u8>, v: u16)
    ensures
        final(out)@ == old(out)@ + u16_bytes(v),
{
    out.push((v % 0x100) as u8);
    out.push((v / 0x100) as u8);
    assert(out@ =~= old(out)@ + u16_bytes(v));
}

/// Appends the four little-endian bytes of an integer.
pub fn put_u32(out: &mut Vec<u8>, v: u32)
    ensures
        final(out)@ == old(out)@ + u32_bytes(v),
{
    out.push((v % 0x100) as u8);
    out.push((v / 0x100 % 0x100) as u8);
    out.push((v / 0x1_0000 % 0x100) as u8);
    out.push((v / 0x100_0000) as u8);
    assert(out@ =~= old(out)@ + u32_bytes(v));
}

/// Appends the eight little-endian bytes of an integer.
pub fn put_u64(out: &mut Vec<u8>, v: u64)
    ensures
        final(out)@ == old(out)@ + u64_bytes(v),
{
    put_u32(out, (v % 0x1_0000_0000) as u32);
    put_u32(out, (v / 0x1_0000_0000) as u32);
    assert(out@ =~= old(out)@ + u64_bytes(v));
}

/// Appends bytes.
pub fn put_bytes(out: &mut Vec<u8>, b: &[u8])
    ensures
        final(out)@ == old(out)@ + b@,
{
    let mut i: usize = 0;
    assert(out@ =~= old(out)@ + b@.take(0));
    while i < b.len()
        invariant
            i <= b@.len(),
            out@ == old(out)@ + b@.take(i as int),
        decreases b@.len() - i,
    {
        out.push(b[i]);
        i += 1;
        assert(out@ =~= old(out)@ + b@.take(i as int));
    }
    assert(b@.take(i as int) =~= b@);
}

/// A text's length and its UTF-8 bytes.
pub open spec fn text_bytes(t: Seq<char>) -> Seq<u8> {
    u64_bytes(encode_utf8(t).len() as u64) + encode_utf8(t)
}

/// Appends a text's length and its UTF-8 bytes.
pub fn put_text(out: &mut Vec<u8>, t: &str)
    ensures
        final(out)@ == old(out)@ + text_bytes(t@),
{
    let b = t.as_bytes();
    put_u64(out, b.len() as u64);
    put_bytes(out, b);
    assert(out@ =~= old(out)@ + text_bytes(t@));
}

/// The bytes `s[from..to]`.
pub fn copy_range(s: &[u8], from: usize, to: usize) -> (r: Vec<u8>)
    requires
        from <= to <= s@.len(),
    ensures
        r@ == s@.subrange(from as int, to as int),
{
    let mut out: Vec<u8> = Vec::new();
    let mut i: usize = from;
    while i < to
        invariant
            from <= i <= to <= s@.len(),
            out@ == s@.subrange(from as int, i as int),
        decreases to - i,
    {
        out.push(s[i]);
        i += 1;
        assert(out@ =~= s@.subrange(from as int, i as int));
    }
    out
}

/// Where bytes stop being UTF-8, and the length of what is wrong there; none where the
/// bytes end within a character.
#[derive(Debug, Clone, Copy, PartialEq, Eq, Structural)]
pub struct Utf8Flaw {
    pub valid_up_to: usize,
    pub error_len: Option<usize>,
}

/// What is wrong with bytes that are not UTF-8, as std tells it.
pub uninterp spec fn utf8_flaw(bytes: Seq<u8>) -> Utf8Flaw;

/// The longest part at the front of bytes that is UTF-8 ends where the flaw is. What is
/// wrong there lies within the bytes, or is at most their last three.
pub open spec fn flaw_lies_in(bytes: Seq<u8>, flaw: Utf8Flaw) -> bool {
    let n = flaw.valid_up_to as int;
    &&& n < bytes.len()
    &&& valid_utf8(bytes.take(n))
    &&& forall|m: int| n < m <= bytes.len() ==> !valid_utf8(#[trigger] bytes.take(m))
    &&& match flaw.error_len {
        Some(len) => n + len <= bytes.len(),
        None => bytes.len() - n <= 3,
    }
}

/// Decodes bytes with [`String::from_utf8`]: it gives a string exactly when the
/// bytes are valid UTF-8, and the string is the text that they encode. What its error
/// says of other bytes depends on the bytes alone; `valid_up_to` is the greatest index
/// up to which they are valid, and `error_len` the length of what is wrong behind it, or
/// none where the bytes end there too early, at most three later. Which of the two it is,
/// and which length, is left unsaid.
#[verifier::external_body]
pub(crate) fn string_from_utf8(bytes: Vec<u8>) -> (r: Result<String, Utf8Flaw>)
    ensures
        r is Ok <==> valid_utf8(bytes@),
        r matches Ok(s) ==> s@ == decode_utf8(bytes@),
        r matches Err(f) ==> f == utf8_flaw(bytes@) && flaw_lies_in(bytes@, f),
{
    match String::from_utf8(bytes) {
        Ok(s) => Ok(s),
        Err(e) => Err(
            Utf8Flaw {
                valid_up_to: e.utf8_error().valid_up_to(),
                error_len: e.utf8_error().error_len(),
            },
        ),
    }
}

/// The text that bytes stand for where they are not UTF-8, as std gives it.
pub uninterp spec fn lossy_text(bytes: Seq<u8>) -> Seq<char>;

/// The text that bytes stand for, with replacements for what is not UTF-8.
pub open spec fn decoded_lossily(bytes: Seq<u8>) -> Seq<char> {
    if valid_utf8(bytes) {
        decode_utf8(bytes)
    } else {
        lossy_text(bytes)
    }
}

/// Decodes bytes with [`String::from_utf8_lossy`]: valid UTF-8 gives the text that it
/// encodes; what any other bytes give depends on the bytes alone.
#[verifier::external_body]
pub(crate) fn string_from_utf8_lossy(bytes: &Vec<u8>) -> (r: String)
    ensures
        valid_utf8(bytes@) ==> r@ == decode_utf8(bytes@),
        !valid_utf8(bytes@) ==> r@ == lossy_text(bytes@),
{
    String::from_utf8_lossy(bytes).into_owned()
}

/// The text encoded by `s[from..to]`, if those bytes are valid UTF-8.
pub open spec fn text_at(s: Seq<u8>, from: int, to: int) -> Option<Seq<char>> {
    if valid_utf8(s.subrange(from, to)) {
        Some(decode_utf8(s.subrange(from, to)))
    } else {
        None
    }
}

/// Decodes `s[from..to]` as UTF-8.
pub fn get_text(s: &[u8], from: usize, to: usize) -> (r: Result<String, Utf8Flaw>)
    requires
        from <= to <= s@.len(),
    ensures
        match r {
            Ok(t) => text_at(s@, from as int, to as int) == Some(t@),
            Err(f) => {
                &&& text_at(s@, from as int, to as int) is None
                &&& f == utf8_flaw(s@.subrange(from as int, to as int))
                &&& flaw_lies_in(s@.subrange(from as int, to as int), f)
            },
        },
{
    string_from_utf8(copy_range(s, from, to))
}

/// Bytes in memory, read from the front.
pub struct ByteReader {
    pub bytes: Vec<u8>,
    pub pos: usize,
}

/// The input ended before the wanted bytes could be read.
#[derive(Debug, Clone, Copy, PartialEq, Eq, Structural)]
pub struct ShortRead;

impl ByteReader {
    /// The position is inside the bytes or at their end.
    pub open spec fn wf(&self) -> bool {
        self.pos <= self.bytes@.len()
    }

    /// The bytes that are still to be read.
    pub open spec fn rest(&self) -> Seq<u8> {
        self.bytes@.subrange(self.pos as int, self.bytes@.len() as int)
    }

    /// A reader at the start of `bytes`.
    pub fn new(bytes: Vec<u8>) -> (r: Self)
        ensures
            r.wf(),
            r.bytes@ == bytes@,
            r.pos == 0,
            r.rest() == bytes@,
    {
        assert(bytes@.subrange(0, bytes@.len() as int) =~= bytes@);
        ByteReader { bytes, pos: 0 }
    }

    /// Takes the next `n` bytes; where fewer are left, all of them are used up.
    pub fn take(&mut self, n: u64) -> (r: Result<Vec<u8>, ShortRead>)
        requires
            old(self).wf(),
        ensures
            final(self).wf(),
            final(self).bytes == old(self).bytes,
            r is Ok <==> n <= old(self).rest().len(),
            r matches Ok(taken) ==> {
                &&& taken@ == old(self).rest().take(n as int)
                &&& final(self).rest() == old(self).rest().skip(n as int)
            },
            r is Err ==> final(self).rest() == Seq::<u8>::empty(),
    {
        let left: usize = self.bytes.len() - self.pos;
        if n > left as u64 {
            self.pos = self.bytes.len();
            assert(self.rest() =~= Seq::<u8>::empty());
            return Err(ShortRead);
        }
        let from: usize = self.pos;
        let to: usize = from + n as usize;
        let taken = copy_range(self.bytes.as_slice(), from, to);
        self.pos = to;
        assert(taken@ =~= old(self).rest().take(n as int));
        assert(self.rest() =~= old(self).rest().skip(n as int));
        Ok(taken)
    }

    /// Takes the next `n` items of one, four or eight bytes each; where the bytes
    /// do not suffice, all of them are used up.
    pub fn take_items(&mut self, n: u64, size: u64) -> (r: Result<Vec<u8>, ShortRead>)
        requires
            old(self).wf(),
            size == 1 || size == 4 || size == 8,
        ensures
            final(self).wf(),
            final(self).bytes == old(self).bytes,
            r is Ok <==> n * size <= old(self).rest().len(),
            r matches Ok(taken) ==> {
                &&& taken@ == old(self).rest().take(n * size)
                &&& final(self).rest() == old(self).rest().skip(n * size)
                &&& taken@.len() == n * size
                &&& n <= usize::MAX
            },
            r is Err ==> final(self).rest() == Seq::<u8>::empty(),
    {
        let left: usize = self.bytes.len() - self.pos;
        if n > left as u64 / size {
            self.pos = self.bytes.len();
            assert(self.rest() =~= Seq::<u8>::empty());
            return Err(ShortRead);
        }
        self.take(n * size)
    }
}

} // verus!
