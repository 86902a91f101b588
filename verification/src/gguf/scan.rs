//! Reading a whole GGUF file that lies in memory.
//!
//! A file is read front to back. What a file says is given by the `scan_*` spec
//! functions below: each takes the file's bytes and a position, and gives what
//! stands there together with the position behind it.

use crate::bytes::{
    get_text, get_u16, get_u32, get_u64, text_at, u16_at, u32_at, u64_at, utf8_flaw,
};
use crate::gguf::error::{FilePart, GgufError};
use crate::gguf::metadata::{tensor_views, MetadataView, ModelMetadata, TensorInfo, TensorView};
use crate::gguf::reader::ReaderView;
use crate::gguf::types::{
    data_type_with, div_ceil, is_version, value_type_with, GgufDataType, GgufValueType,
    GGUF_MAGIC,
};
use crate::gguf::value::{GgufValue, ValueView};
use crate::names::NameMap;
use crate::text::texts;
use vstd::prelude::*;

verus! {

/// Why a file cannot be read to its end.
#[derive(Debug, Clone, Copy, PartialEq, Eq, Structural)]
pub enum Fault {
    /// The file is refused.
    Refused(GgufError),
    /// A value is said to reach beyond the file, or a position beyond the range
    /// of a `usize`.
    Overrun,
}

/// Whether `n` bytes can be read at `pos`, and what is wrong where not.
pub open spec fn room(data: Seq<u8>, pos: int, n: int, part: FilePart) -> Result<(), Fault> {
    if pos + n > usize::MAX {
        Err(Fault::Overrun)
    } else if pos + n > data.len() {
        Err(Fault::Refused(GgufError::Truncated(part)))
    } else {
        Ok(())
    }
}

/// The refusal of bytes that are not UTF-8.
pub open spec fn not_utf8(data: Seq<u8>, from: int, to: int) -> GgufError {
    GgufError::InvalidUtf8(utf8_flaw(data.subrange(from, to)))
}

/// A length followed by that many bytes of text. Gives the text and the length.
pub open spec fn scan_text(data: Seq<u8>, pos: int) -> Result<(Seq<char>, int), Fault> {
    if pos + 8 > data.len() {
        Err(Fault::Overrun)
    } else {
        let n = u64_at(data, pos) as usize as int;
        if pos + 8 + n > data.len() {
            Err(Fault::Overrun)
        } else {
            match text_at(data, pos + 8, pos + 8 + n) {
                Some(t) => Ok((t, n)),
                None => Err(Fault::Refused(not_utf8(data, pos + 8, pos + 8 + n))),
            }
        }
    }
}

/// `n` texts one behind the other, behind those in `before`. Gives all of them
/// and the position behind the last.
pub open spec fn scan_texts(data: Seq<u8>, pos: int, n: nat, before: Seq<Seq<char>>) -> Result<
    (Seq<Seq<char>>, int),
    Fault,
>
    decreases n,
{
    if n == 0 {
        Ok((before, pos))
    } else {
        match scan_text(data, pos) {
            Ok((t, len)) => scan_texts(data, pos + 8 + len, (n - 1) as nat, before.push(t)),
            Err(f) => Err(f),
        }
    }
}

/// `n` 32-bit signed integers at `pos`.
pub open spec fn i32s_at(data: Seq<u8>, pos: int, n: nat) -> Seq<i32> {
    Seq::new(n, |i: int| u32_at(data, pos + 4 * i) as i32)
}

/// `n` 32-bit integers at `pos`.
pub open spec fn u32s_at(data: Seq<u8>, pos: int, n: nat) -> Seq<u32> {
    Seq::new(n, |i: int| u32_at(data, pos + 4 * i))
}

/// `n` 64-bit integers at `pos`.
pub open spec fn u64s_at(data: Seq<u8>, pos: int, n: nat) -> Seq<u64> {
    Seq::new(n, |i: int| u64_at(data, pos + 8 * i))
}

/// Where texts end, and arrays behind them, that are passed over. Only the lengths of
/// texts, and the types and lengths of arrays, are looked at. The elements of an array of
/// arrays stand behind it as arrays of their own.
pub open spec fn passed_over(data: Seq<u8>, pos: int, texts: nat, arrays: nat) -> Result<int, Fault>
    decreases
            (if pos < data.len() {
                data.len() - pos
            } else {
                0
            }),
{
    if texts > 0 {
        if pos + 8 > data.len() {
            Err(Fault::Overrun)
        } else {
            let n = u64_at(data, pos) as usize as int;
            passed_over(data, pos + 8 + n, (texts - 1) as nat, arrays)
        }
    } else if arrays == 0 {
        Ok(pos)
    } else if pos + 4 > data.len() {
        Err(Fault::Overrun)
    } else {
        match value_type_with(u32_at(data, pos)) {
            None => Err(Fault::Refused(GgufError::UnknownArrayType)),
            Some(t) => if pos + 12 > data.len() {
                Err(Fault::Overrun)
            } else {
                let n = u64_at(data, pos + 4) as nat;
                match t {
                    GgufValueType::String => passed_over(data, pos + 12, n, (arrays - 1) as nat),
                    GgufValueType::Array => passed_over(
                        data,
                        pos + 12,
                        0,
                        (arrays - 1 + n) as nat,
                    ),
                    _ => passed_over(
                        data,
                        pos + 12 + n * fixed_size(t),
                        0,
                        (arrays - 1) as nat,
                    ),
                }
            },
        }
    }
}

/// An array: the type of its elements, their number, and the elements. Gives the
/// value and the bytes it takes. An array of a type that is not kept is passed over,
/// and stands as an empty list; whether its last bytes are there is not looked at.
pub open spec fn scan_array(data: Seq<u8>, pos: int) -> Result<(ValueView, int), Fault> {
    if pos + 4 > data.len() {
        Err(Fault::Overrun)
    } else {
        match value_type_with(u32_at(data, pos)) {
            None => Err(Fault::Refused(GgufError::UnknownArrayType)),
            Some(t) => if pos + 12 > data.len() {
                Err(Fault::Overrun)
            } else {
                let n = u64_at(data, pos + 4);
                match t {
                    GgufValueType::I32 => if pos + 12 + 4 * n > data.len() {
                        Err(Fault::Overrun)
                    } else {
                        Ok((ValueView::I32Vec(i32s_at(data, pos + 12, n as nat)), 12 + 4 * n))
                    },
                    GgufValueType::F32 => if pos + 12 + 4 * n > data.len() {
                        Err(Fault::Overrun)
                    } else {
                        Ok((ValueView::F32Vec(u32s_at(data, pos + 12, n as nat)), 12 + 4 * n))
                    },
                    GgufValueType::String => match scan_texts(data, pos + 12, n as nat, seq![]) {
                        Ok((ts, end)) => Ok((ValueView::StringVec(ts), end - pos)),
                        Err(f) => Err(f),
                    },
                    GgufValueType::Array => match passed_over(data, pos + 12, 0, n as nat) {
                        Ok(end) => skipped_array(end - pos),
                        Err(f) => Err(f),
                    },
                    _ => skipped_array(12 + n * fixed_size(t)),
                }
            },
        }
    }
}

/// An array that was passed over, unless it takes more bytes than can be counted.
pub open spec fn skipped_array(len: int) -> Result<(ValueView, int), Fault> {
    if len > usize::MAX {
        Err(Fault::Overrun)
    } else {
        Ok((ValueView::I32Vec(seq![]), len))
    }
}

/// The bytes that a value of fixed size takes.
pub open spec fn fixed_size(t: GgufValueType) -> int {
    match t {
        GgufValueType::Bool | GgufValueType::U8 | GgufValueType::I8 => 1,
        GgufValueType::U16 | GgufValueType::I16 => 2,
        GgufValueType::U32 | GgufValueType::I32 | GgufValueType::F32 => 4,
        GgufValueType::U64 | GgufValueType::I64 | GgufValueType::F64 => 8,
        GgufValueType::String | GgufValueType::Array => 0,
    }
}

/// The value of a fixed-size type at `pos`.
pub open spec fn fixed_value(data: Seq<u8>, pos: int, t: GgufValueType) -> ValueView {
    match t {
        GgufValueType::Bool => ValueView::Bool(data[pos] != 0),
        GgufValueType::U8 => ValueView::U8(data[pos]),
        GgufValueType::I8 => ValueView::I8(data[pos] as i8),
        GgufValueType::U16 => ValueView::U16(u16_at(data, pos)),
        GgufValueType::I16 => ValueView::I16(u16_at(data, pos) as i16),
        GgufValueType::U32 => ValueView::U32(u32_at(data, pos)),
        GgufValueType::I32 => ValueView::I32(u32_at(data, pos) as i32),
        GgufValueType::F32 => ValueView::F32(u32_at(data, pos)),
        GgufValueType::U64 => ValueView::U64(u64_at(data, pos)),
        GgufValueType::I64 => ValueView::I64(u64_at(data, pos) as i64),
        _ => ValueView::F64(u64_at(data, pos)),
    }
}

/// The value of a given type at `pos`, and the bytes it takes.
pub open spec fn scan_value(data: Seq<u8>, pos: int, t: GgufValueType) -> Result<
    (ValueView, int),
    Fault,
> {
    match t {
        GgufValueType::String => match scan_text(data, pos) {
            Ok((text, len)) => Ok((ValueView::String(text), 8 + len)),
            Err(f) => Err(f),
        },
        GgufValueType::Array => scan_array(data, pos),
        _ => if pos + fixed_size(t) > data.len() {
            Err(Fault::Overrun)
        } else {
            Ok((fixed_value(data, pos, t), fixed_size(t)))
        },
    }
}

/// A name: its length and its bytes. Gives the name and the position behind it.
pub open spec fn scan_name(
    data: Seq<u8>,
    pos: int,
    length_part: FilePart,
    part: FilePart,
) -> Result<(Seq<char>, int), Fault> {
    match room(data, pos, 8, length_part) {
        Err(f) => Err(f),
        Ok(()) => {
            let n = u64_at(data, pos) as usize as int;
            match room(data, pos + 8, n, part) {
                Err(f) => Err(f),
                Ok(()) => match text_at(data, pos + 8, pos + 8 + n) {
                    Some(t) => Ok((t, pos + 8 + n)),
                    None => Err(Fault::Refused(not_utf8(data, pos + 8, pos + 8 + n))),
                },
            }
        },
    }
}

/// One metadata entry: key, value, and the position behind them.
pub open spec fn scan_entry(data: Seq<u8>, pos: int) -> Result<(Seq<char>, ValueView, int), Fault> {
    match scan_name(data, pos, FilePart::KeyLength, FilePart::Key) {
        Err(f) => Err(f),
        Ok((key, p)) => match room(data, p, 4, FilePart::ValueType) {
            Err(f) => Err(f),
            Ok(()) => match value_type_with(u32_at(data, p)) {
                None => Err(Fault::Refused(GgufError::UnknownValueType(u32_at(data, p)))),
                Some(t) => match scan_value(data, p + 4, t) {
                    Err(f) => Err(f),
                    Ok((v, len)) => if p + 4 + len > usize::MAX {
                        Err(Fault::Overrun)
                    } else {
                        Ok((key, v, p + 4 + len))
                    },
                },
            },
        },
    }
}

/// `n` metadata entries, added to those in `before`: a later entry replaces an
/// earlier one with its key. The entries ahead of a fault are kept.
pub open spec fn scan_entries(
    data: Seq<u8>,
    pos: int,
    n: nat,
    before: Map<Seq<char>, ValueView>,
) -> (Map<Seq<char>, ValueView>, Result<int, Fault>)
    decreases n,
{
    if n == 0 {
        (before, Ok(pos))
    } else {
        match scan_entry(data, pos) {
            Err(f) => (before, Err(f)),
            Ok((k, v, next)) => scan_entries(data, next, (n - 1) as nat, before.insert(k, v)),
        }
    }
}

/// One tensor description, and the position behind it.
pub open spec fn scan_tensor(data: Seq<u8>, pos: int) -> Result<(TensorView, int), Fault> {
    match scan_name(data, pos, FilePart::TensorNameLength, FilePart::TensorName) {
        Err(f) => Err(f),
        Ok((name, p)) => match room(data, p, 4, FilePart::Dims) {
            Err(f) => Err(f),
            Ok(()) => {
                let n_dims = u32_at(data, p);
                let q = p + 4 + 8 * n_dims;
                if q > data.len() {
                    Err(Fault::Refused(GgufError::Truncated(FilePart::Shape)))
                } else {
                    match room(data, q, 4, FilePart::DataType) {
                        Err(f) => Err(f),
                        Ok(()) => match data_type_with(u32_at(data, q)) {
                            None => Err(
                                Fault::Refused(GgufError::UnknownDataType(u32_at(data, q))),
                            ),
                            Some(data_type) => match room(data, q + 4, 8, FilePart::TensorOffset) {
                                Err(f) => Err(f),
                                Ok(()) => Ok(
                                    (
                                        TensorView {
                                            name,
                                            n_dims,
                                            shape: u64s_at(data, p + 4, n_dims as nat),
                                            data_type,
                                            offset: u64_at(data, q + 4),
                                            stride: Seq::new(n_dims as nat, |i: int| 1usize),
                                        },
                                        q + 12,
                                    ),
                                ),
                            },
                        },
                    }
                }
            },
        },
    }
}

/// `n` tensor descriptions, behind those in `before`. Those ahead of a fault are
/// kept.
pub open spec fn scan_tensors(data: Seq<u8>, pos: int, n: nat, before: Seq<TensorView>) -> (
    Seq<TensorView>,
    Result<int, Fault>,
)
    decreases n,
{
    if n == 0 {
        (before, Ok(pos))
    } else {
        match scan_tensor(data, pos) {
            Err(f) => (before, Err(f)),
            Ok((t, next)) => scan_tensors(data, next, (n - 1) as nat, before.push(t)),
        }
    }
}

/// The alignment that metadata asks for; 32 where it does not.
pub open spec fn stated_alignment(m: Map<Seq<char>, ValueView>) -> usize {
    if m.contains_key("general.alignment"@) {
        match m["general.alignment"@] {
            ValueView::U32(v) => v as usize,
            ValueView::U64(v) => v as usize,
            _ => 32,
        }
    } else {
        32
    }
}

/// The alignment of tensor data: what metadata asks for, and one where that is
/// zero.
pub open spec fn data_alignment(m: Map<Seq<char>, ValueView>) -> usize {
    if stated_alignment(m) == 0 {
        1
    } else {
        stated_alignment(m)
    }
}

/// A file's fixed start: version, tensor count and entry count.
pub open spec fn scan_header(data: Seq<u8>) -> Result<(u32, u64, u64), Fault> {
    if data.len() < 8 || u32_at(data, 0) != GGUF_MAGIC {
        Err(Fault::Refused(GgufError::InvalidMagic))
    } else {
        let version = u32_at(data, 4);
        if !is_version(version) {
            Err(Fault::Refused(GgufError::UnsupportedVersion(version)))
        } else if data.len() < 16 {
            Err(Fault::Refused(GgufError::Truncated(FilePart::TensorCount)))
        } else if data.len() < 24 {
            Err(Fault::Refused(GgufError::Truncated(FilePart::KvCount)))
        } else {
            Ok((version, u64_at(data, 8), u64_at(data, 16)))
        }
    }
}

/// What a whole file does to a reader, and what it says. The reader keeps what it
/// read ahead of a fault.
pub open spec fn scan_file(data: Seq<u8>, before: ReaderView) -> (
    ReaderView,
    Result<MetadataView, Fault>,
) {
    match scan_header(data) {
        Err(f) => (before, Err(f)),
        Ok((version, tensor_count, kv_count)) => {
            let (metadata, entries_end) = scan_entries(data, 24, kv_count as nat, before.metadata);
            match entries_end {
                Err(f) => (
                    ReaderView { version, tensor_count, kv_count, metadata, tensors: before.tensors },
                    Err(f),
                ),
                Ok(p) => {
                    let (tensors, tensors_end) = scan_tensors(
                        data,
                        p,
                        tensor_count as nat,
                        before.tensors,
                    );
                    let after = ReaderView { version, tensor_count, kv_count, metadata, tensors };
                    match tensors_end {
                        Err(f) => (after, Err(f)),
                        Ok(end) => {
                            let alignment = data_alignment(metadata);
                            let offset = div_ceil(end as nat, alignment as nat) * alignment;
                            if offset > usize::MAX {
                                (after, Err(Fault::Overrun))
                            } else {
                                (
                                    after,
                                    Ok(
                                        MetadataView {
                                            version,
                                            tensor_count,
                                            kv_count,
                                            alignment,
                                            tensor_data_offset: offset as u64,
                                            metadata,
                                            tensors,
                                        },
                                    ),
                                )
                            }
                        },
                    }
                },
            }
        },
    }
}

fn check_room(data: &[u8], pos: usize, n: usize, part: FilePart) -> (r: Result<(), Fault>)
    ensures
        r == room(data@, pos as int, n as int, part),
{
    if n > usize::MAX - pos {
        Err(Fault::Overrun)
    } else if pos + n > data.len() {
        Err(Fault::Refused(GgufError::Truncated(part)))
    } else {
        Ok(())
    }
}

fn read_text(data: &[u8], pos: usize) -> (r: Result<(String, usize), Fault>)
    requires
        pos <= data@.len(),
    ensures
        match r {
            Ok((t, len)) => scan_text(data@, pos as int) == Ok::<(Seq<char>, int), Fault>(
                (t@, len as int),
            ) && pos + 8 + len <= data@.len(),
            Err(f) => scan_text(data@, pos as int) == Err::<(Seq<char>, int), Fault>(f),
        },
{
    if data.len() - pos < 8 {
        return Err(Fault::Overrun);
    }
    let n: usize = get_u64(data, pos) as usize;
    if data.len() - pos - 8 < n {
        return Err(Fault::Overrun);
    }
    match get_text(data, pos + 8, pos + 8 + n) {
        Ok(t) => Ok((t, n)),
        Err(flaw) => Err(Fault::Refused(GgufError::InvalidUtf8(flaw))),
    }
}

fn read_texts(data: &[u8], start: usize, n: u64) -> (r: Result<(Vec<String>, usize), Fault>)
    requires
        start <= data@.len(),
    ensures
        match r {
            Ok((ts, end)) => scan_texts(data@, start as int, n as nat, seq![]) == Ok::<
                (Seq<Seq<char>>, int),
                Fault,
            >((texts(ts@), end as int)) && start <= end <= data@.len(),
            Err(f) => scan_texts(data@, start as int, n as nat, seq![]) == Err::<
                (Seq<Seq<char>>, int),
                Fault,
            >(f),
        },
{
    let mut out: Vec<String> = Vec::new();
    let mut pos: usize = start;
    let mut k: u64 = 0;
    assert(texts(out@) =~= seq![]);
    assert(data.len() <= usize::MAX);
    while k < n
        invariant
            k <= n,
            start <= pos <= data@.len() <= usize::MAX,
            scan_texts(data@, start as int, n as nat, seq![]) == scan_texts(
                data@,
                pos as int,
                (n - k) as nat,
                texts(out@),
            ),
        decreases n - k,
    {
        match read_text(data, pos) {
            Ok((t, len)) => {
                let ghost before = out@;
                out.push(t);
                assert(texts(out@) =~= texts(before).push(t@));
                pos = pos + 8 + len;
            },
            Err(f) => {
                return Err(f);
            },
        }
        k += 1;
    }
    Ok((out, pos))
}

pub(crate) fn read_u32s(data: &[u8], start: usize, n: usize) -> (r: Vec<u32>)
    requires
        start + 4 * n <= data@.len(),
    ensures
        r@ == u32s_at(data@, start as int, n as nat),
{
    let mut out: Vec<u32> = Vec::new();
    let mut k: usize = 0;
    assert(data.len() <= usize::MAX);
    while k < n
        invariant
            k <= n,
            start + 4 * n <= data@.len() <= usize::MAX,
            out@ == u32s_at(data@, start as int, k as nat),
        decreases n - k,
    {
        out.push(get_u32(data, start + 4 * k));
        k += 1;
        assert(out@ =~= u32s_at(data@, start as int, k as nat));
    }
    out
}

pub(crate) fn read_i32s(data: &[u8], start: usize, n: usize) -> (r: Vec<i32>)
    requires
        start + 4 * n <= data@.len(),
    ensures
        r@ == i32s_at(data@, start as int, n as nat),
{
    let mut out: Vec<i32> = Vec::new();
    let mut k: usize = 0;
    assert(data.len() <= usize::MAX);
    while k < n
        invariant
            k <= n,
            start + 4 * n <= data@.len() <= usize::MAX,
            out@ == i32s_at(data@, start as int, k as nat),
        decreases n - k,
    {
        out.push(get_u32(data, start + 4 * k) as i32);
        k += 1;
        assert(out@ =~= i32s_at(data@, start as int, k as nat));
    }
    out
}

pub(crate) fn read_u64s(data: &[u8], start: usize, n: usize) -> (r: Vec<u64>)
    requires
        start + 8 * n <= data@.len(),
    ensures
        r@ == u64s_at(data@, start as int, n as nat),
{
    let mut out: Vec<u64> = Vec::new();
    let mut k: usize = 0;
    assert(data.len() <= usize::MAX);
    while k < n
        invariant
            k <= n,
            start + 8 * n <= data@.len() <= usize::MAX,
            out@ == u64s_at(data@, start as int, k as nat),
        decreases n - k,
    {
        out.push(get_u64(data, start + 8 * k));
        k += 1;
        assert(out@ =~= u64s_at(data@, start as int, k as nat));
    }
    out
}

/// The outcome of reading a value, as the spec functions give it.
pub open spec fn value_outcome(r: Result<(GgufValue, usize), Fault>) -> Result<
    (ValueView, int),
    Fault,
> {
    match r {
        Ok((v, len)) => Ok((v@, len as int)),
        Err(f) => Err(f),
    }
}

fn size_of_fixed(t: GgufValueType) -> (r: u64)
    ensures
        r == fixed_size(t),
        r <= 8,
{
    match t {
        GgufValueType::Bool | GgufValueType::U8 | GgufValueType::I8 => 1,
        GgufValueType::U16 | GgufValueType::I16 => 2,
        GgufValueType::U32 | GgufValueType::I32 | GgufValueType::F32 => 4,
        GgufValueType::U64 | GgufValueType::I64 | GgufValueType::F64 => 8,
        GgufValueType::String | GgufValueType::Array => 0,
    }
}

fn read_array_from_bytes(data: &[u8], pos: usize) -> (r: Result<(GgufValue, usize), Fault>)
    requires
        pos <= data@.len(),
    ensures
        value_outcome(r) == scan_array(data@, pos as int),
{
    if data.len() - pos < 4 {
        return Err(Fault::Overrun);
    }
    let t = match GgufValueType::from_id(get_u32(data, pos)) {
        Some(t) => t,
        None => {
            return Err(Fault::Refused(GgufError::UnknownArrayType));
        },
    };
    if data.len() - pos < 12 {
        return Err(Fault::Overrun);
    }
    let n: u64 = get_u64(data, pos + 4);
    let left: usize = data.len() - pos - 12;
    match t {
        GgufValueType::I32 => {
            if n > left as u64 / 4 {
                return Err(Fault::Overrun);
            }
            let len: usize = n as usize;
            let v = read_i32s(data, pos + 12, len);
            Ok((GgufValue::I32Vec(v), 12 + 4 * len))
        },
        GgufValueType::F32 => {
            if n > left as u64 / 4 {
                return Err(Fault::Overrun);
            }
            let len: usize = n as usize;
            let v = read_u32s(data, pos + 12, len);
            Ok((GgufValue::F32Vec(v), 12 + 4 * len))
        },
        GgufValueType::String => match read_texts(data, pos + 12, n) {
            Ok((ts, end)) => Ok((GgufValue::StringVec(ts), end - pos)),
            Err(f) => Err(f),
        },
        GgufValueType::Array => match pass_over(data, pos + 12, n) {
            Ok(end) => skip_array(end - pos as u128),
            Err(f) => Err(f),
        },
        _ => {
            let size: u64 = size_of_fixed(t);
            proof {
                lemma_elements(n as int, size as int);
            }
            skip_array(12 + n as u128 * size as u128)
        },
    }
}

fn skip_array(len: u128) -> (r: Result<(GgufValue, usize), Fault>)
    ensures
        value_outcome(r) == skipped_array(len as int),
{
    if len > usize::MAX as u128 {
        return Err(Fault::Overrun);
    }
    let v = GgufValue::I32Vec(Vec::new());
    assert(v@ =~~= ValueView::I32Vec(seq![]));
    Ok((v, len as usize))
}

/// Elements of eight bytes or less can be counted in bytes.
proof fn lemma_elements(n: int, size: int)
    requires
        0 <= n,
        0 <= size <= 8,
    ensures
        0 <= n * size <= 8 * n,
{
    assert(0 <= n * size <= 8 * n) by (nonlinear_arith)
        requires
            0 <= n,
            0 <= size <= 8,
    ;
}

/// Passes over arrays, and gives the position behind them.
fn pass_over(data: &[u8], start: usize, n: u64) -> (r: Result<u128, Fault>)
    requires
        start <= data@.len(),
    ensures
        match r {
            Ok(end) => {
                &&& start <= end
                &&& passed_over(data@, start as int, 0, n as nat) == Ok::<int, Fault>(end as int)
            },
            Err(f) => passed_over(data@, start as int, 0, n as nat) == Err::<int, Fault>(f),
        },
{
    let len: u128 = data.len() as u128;
    let mut pos: u128 = start as u128;
    let mut texts: u64 = 0;
    let mut arrays: u128 = n as u128;
    assert(data.len() <= usize::MAX <= u64::MAX);
    while texts > 0 || arrays > 0
        invariant
            len == data@.len() <= usize::MAX <= u64::MAX,
            start <= pos <= len + 8 * u64::MAX,
            arrays <= u64::MAX * (pos + 1),
            passed_over(data@, start as int, 0, n as nat) == passed_over(
                data@,
                pos as int,
                texts as nat,
                arrays as nat,
            ),
        decreases
                (if pos < len {
                    len - pos
                } else {
                    0
                }),
    {
        if texts > 0 {
            if pos + 8 > len {
                return Err(Fault::Overrun);
            }
            let size: usize = get_u64(data, pos as usize) as usize;
            pos = pos + 8 + size as u128;
            texts = texts - 1;
        } else {
            if pos + 4 > len {
                return Err(Fault::Overrun);
            }
            let t = match GgufValueType::from_id(get_u32(data, pos as usize)) {
                Some(t) => t,
                None => {
                    return Err(Fault::Refused(GgufError::UnknownArrayType));
                },
            };
            if pos + 12 > len {
                return Err(Fault::Overrun);
            }
            let count: u64 = get_u64(data, pos as usize + 4);
            arrays = arrays - 1;
            pos = pos + 12;
            match t {
                GgufValueType::String => {
                    texts = count;
                },
                GgufValueType::Array => {
                    arrays = arrays + count as u128;
                },
                _ => {
                    let size: u64 = size_of_fixed(t);
                    proof {
                        lemma_elements(count as int, size as int);
                    }
                    pos = pos + count as u128 * size as u128;
                },
            }
        }
    }
    Ok(pos)
}

/// Reads a value of a given type, and says how many bytes it takes.
pub fn read_value_from_bytes(data: &[u8], pos: usize, value_type: GgufValueType) -> (r: Result<
    (GgufValue, usize),
    Fault,
>)
    requires
        pos <= data@.len(),
    ensures
        value_outcome(r) == scan_value(data@, pos as int, value_type),
{
    let left: usize = data.len() - pos;
    match value_type {
        GgufValueType::Bool => if left < 1 {
            Err(Fault::Overrun)
        } else {
            Ok((GgufValue::Bool(data[pos] != 0), 1))
        },
        GgufValueType::U8 => if left < 1 {
            Err(Fault::Overrun)
        } else {
            Ok((GgufValue::U8(data[pos]), 1))
        },
        GgufValueType::I8 => if left < 1 {
            Err(Fault::Overrun)
        } else {
            Ok((GgufValue::I8(data[pos] as i8), 1))
        },
        GgufValueType::U16 => if left < 2 {
            Err(Fault::Overrun)
        } else {
            Ok((GgufValue::U16(get_u16(data, pos)), 2))
        },
        GgufValueType::I16 => if left < 2 {
            Err(Fault::Overrun)
        } else {
            Ok((GgufValue::I16(get_u16(data, pos) as i16), 2))
        },
        GgufValueType::U32 => if left < 4 {
            Err(Fault::Overrun)
        } else {
            Ok((GgufValue::U32(get_u32(data, pos)), 4))
        },
        GgufValueType::I32 => if left < 4 {
            Err(Fault::Overrun)
        } else {
            Ok((GgufValue::I32(get_u32(data, pos) as i32), 4))
        },
        GgufValueType::F32 => if left < 4 {
            Err(Fault::Overrun)
        } else {
            Ok((GgufValue::F32(get_u32(data, pos)), 4))
        },
        GgufValueType::U64 => if left < 8 {
            Err(Fault::Overrun)
        } else {
            Ok((GgufValue::U64(get_u64(data, pos)), 8))
        },
        GgufValueType::I64 => if left < 8 {
            Err(Fault::Overrun)
        } else {
            Ok((GgufValue::I64(get_u64(data, pos) as i64), 8))
        },
        GgufValueType::F64 => if left < 8 {
            Err(Fault::Overrun)
        } else {
            Ok((GgufValue::F64(get_u64(data, pos)), 8))
        },
        GgufValueType::String => match read_text(data, pos) {
            Ok((t, len)) => Ok((GgufValue::String(t), 8 + len)),
            Err(f) => Err(f),
        },
        GgufValueType::Array => read_array_from_bytes(data, pos),
    }
}

fn read_name(data: &[u8], pos: usize, length_part: FilePart, part: FilePart) -> (r: Result<
    (String, usize),
    Fault,
>)
    ensures
        match r {
            Ok((t, next)) => scan_name(data@, pos as int, length_part, part) == Ok::<
                (Seq<char>, int),
                Fault,
            >((t@, next as int)) && next <= data@.len(),
            Err(f) => scan_name(data@, pos as int, length_part, part) == Err::<
                (Seq<char>, int),
                Fault,
            >(f),
        },
{
    match check_room(data, pos, 8, length_part) {
        Err(f) => {
            return Err(f);
        },
        Ok(()) => {},
    }
    let n: usize = get_u64(data, pos) as usize;
    match check_room(data, pos + 8, n, part) {
        Err(f) => {
            return Err(f);
        },
        Ok(()) => {},
    }
    match get_text(data, pos + 8, pos + 8 + n) {
        Ok(t) => Ok((t, pos + 8 + n)),
        Err(flaw) => Err(Fault::Refused(GgufError::InvalidUtf8(flaw))),
    }
}

fn read_entry(data: &[u8], pos: usize) -> (r: Result<(String, GgufValue, usize), Fault>)
    ensures
        match r {
            Ok((k, v, next)) => scan_entry(data@, pos as int) == Ok::<
                (Seq<char>, ValueView, int),
                Fault,
            >((k@, v@, next as int)),
            Err(f) => scan_entry(data@, pos as int) == Err::<(Seq<char>, ValueView, int), Fault>(f),
        },
{
    let (key, p) = match read_name(data, pos, FilePart::KeyLength, FilePart::Key) {
        Ok(x) => x,
        Err(f) => {
            return Err(f);
        },
    };
    match check_room(data, p, 4, FilePart::ValueType) {
        Err(f) => {
            return Err(f);
        },
        Ok(()) => {},
    }
    let id: u32 = get_u32(data, p);
    let t = match GgufValueType::from_id(id) {
        Some(t) => t,
        None => {
            return Err(Fault::Refused(GgufError::UnknownValueType(id)));
        },
    };
    match read_value_from_bytes(data, p + 4, t) {
        Err(f) => Err(f),
        Ok((v, len)) => if len > usize::MAX - p - 4 {
            Err(Fault::Overrun)
        } else {
            Ok((key, v, p + 4 + len))
        },
    }
}

pub(crate) fn ones(n: u32) -> (r: Vec<usize>)
    ensures
        r@ == Seq::new(n as nat, |i: int| 1usize),
{
    let mut out: Vec<usize> = Vec::new();
    let mut k: u32 = 0;
    while k < n
        invariant
            k <= n,
            out@ == Seq::new(k as nat, |i: int| 1usize),
        decreases n - k,
    {
        out.push(1);
        k += 1;
        assert(out@ =~= Seq::new(k as nat, |i: int| 1usize));
    }
    out
}

fn read_tensor(data: &[u8], pos: usize) -> (r: Result<(TensorInfo, usize), Fault>)
    ensures
        match r {
            Ok((t, next)) => scan_tensor(data@, pos as int) == Ok::<(TensorView, int), Fault>(
                (t@, next as int),
            ),
            Err(f) => scan_tensor(data@, pos as int) == Err::<(TensorView, int), Fault>(f),
        },
{
    let (name, p) = match read_name(
        data,
        pos,
        FilePart::TensorNameLength,
        FilePart::TensorName,
    ) {
        Ok(x) => x,
        Err(f) => {
            return Err(f);
        },
    };
    match check_room(data, p, 4, FilePart::Dims) {
        Err(f) => {
            return Err(f);
        },
        Ok(()) => {},
    }
    let n_dims: u32 = get_u32(data, p);
    if n_dims as u64 > (data.len() - p - 4) as u64 / 8 {
        return Err(Fault::Refused(GgufError::Truncated(FilePart::Shape)));
    }
    let shape = read_u64s(data, p + 4, n_dims as usize);
    let q: usize = p + 4 + 8 * n_dims as usize;
    match check_room(data, q, 4, FilePart::DataType) {
        Err(f) => {
            return Err(f);
        },
        Ok(()) => {},
    }
    let id: u32 = get_u32(data, q);
    let data_type = match GgufDataType::from_id(id) {
        Some(t) => t,
        None => {
            return Err(Fault::Refused(GgufError::UnknownDataType(id)));
        },
    };
    match check_room(data, q + 4, 8, FilePart::TensorOffset) {
        Err(f) => {
            return Err(f);
        },
        Ok(()) => {},
    }
    let offset: u64 = get_u64(data, q + 4);
    Ok((TensorInfo { name, n_dims, shape, data_type, offset, stride: ones(n_dims) }, q + 12))
}

/// Reads the alignment that metadata asks for.
pub fn alignment_of(m: &NameMap<GgufValue>) -> (r: usize)
    ensures
        r == stated_alignment(m@),
{
    match m.get("general.alignment") {
        Some(GgufValue::U32(v)) => *v as usize,
        Some(GgufValue::U64(v)) => *v as usize,
        _ => 32,
    }
}

pub(crate) fn read_entries(m: &mut NameMap<GgufValue>, data: &[u8], start: usize, n: u64) -> (r: Result<
    usize,
    Fault,
>)
    ensures
        ({
            let (after, end) = scan_entries(data@, start as int, n as nat, old(m)@);
            &&& final(m)@ == after
            &&& match r {
                Ok(pos) => end == Ok::<int, Fault>(pos as int),
                Err(f) => end == Err::<int, Fault>(f),
            }
        }),
{
    let mut pos: usize = start;
    let mut k: u64 = 0;
    while k < n
        invariant
            k <= n,
            scan_entries(data@, start as int, n as nat, old(m)@) == scan_entries(
                data@,
                pos as int,
                (n - k) as nat,
                m@,
            ),
        decreases n - k,
    {
        match read_entry(data, pos) {
            Ok((key, value, next)) => {
                m.insert(key, value);
                pos = next;
            },
            Err(f) => {
                return Err(f);
            },
        }
        k += 1;
    }
    Ok(pos)
}

pub(crate) fn read_tensor_table(tensors: &mut Vec<TensorInfo>, data: &[u8], start: usize, n: u64) -> (r:
    Result<usize, Fault>)
    ensures
        ({
            let (after, end) = scan_tensors(
                data@,
                start as int,
                n as nat,
                tensor_views(old(tensors)@),
            );
            &&& tensor_views(final(tensors)@) == after
            &&& match r {
                Ok(pos) => end == Ok::<int, Fault>(pos as int),
                Err(f) => end == Err::<int, Fault>(f),
            }
        }),
{
    let mut pos: usize = start;
    let mut k: u64 = 0;
    while k < n
        invariant
            k <= n,
            scan_tensors(data@, start as int, n as nat, tensor_views(old(tensors)@))
                == scan_tensors(data@, pos as int, (n - k) as nat, tensor_views(tensors@)),
        decreases n - k,
    {
        match read_tensor(data, pos) {
            Ok((t, next)) => {
                let ghost before = tensors@;
                tensors.push(t);
                assert(tensor_views(tensors@) =~= tensor_views(before).push(t@));
                pos = next;
            },
            Err(f) => {
                return Err(f);
            },
        }
        k += 1;
    }
    Ok(pos)
}

/// The outcome of reading a file, as [`scan_file`] gives it.
pub open spec fn file_outcome(r: Result<ModelMetadata, Fault>) -> Result<MetadataView, Fault> {
    match r {
        Ok(m) => Ok(m@),
        Err(f) => Err(f),
    }
}

} // verus!
