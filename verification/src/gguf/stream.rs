//! Reading GGUF input field by field.
//!
//! Each `stream_*` spec function takes the bytes that are still to be read, and
//! gives the outcome together with the bytes that are left behind it. A read that
//! runs short leaves nothing.

use crate::bytes::{text_at, u32_at, u64_at, ByteReader};
use crate::gguf::error::GgufError;
use crate::gguf::metadata::{tensor_views, TensorInfo, TensorView};
use crate::gguf::reader::ReaderView;
use crate::gguf::scan::{
    i32s_at, not_utf8, ones, read_i32s, read_u32s, read_u64s, u32s_at, u64s_at,
};
use crate::gguf::types::{
    data_type_with, is_version, value_type_with, GgufByteOrder, GgufDataType, GgufValueType,
    GGUF_MAGIC,
};
use crate::gguf::value::{GgufValue, ValueView};
use crate::names::NameMap;
use crate::text::texts;
use vstd::prelude::*;

verus! {

/// The outcome of a read that ran short.
pub open spec fn short<T>() -> (Result<T, GgufError>, Seq<u8>) {
    (Err(GgufError::ShortRead), seq![])
}

/// A length followed by that many bytes of text.
pub open spec fn stream_text(s: Seq<u8>) -> (Result<Seq<char>, GgufError>, Seq<u8>) {
    if s.len() < 8 {
        short()
    } else {
        let n = u64_at(s, 0) as usize as int;
        if s.len() < 8 + n {
            short()
        } else {
            (
                match text_at(s, 8, 8 + n) {
                    Some(t) => Ok(t),
                    None => Err(not_utf8(s, 8, 8 + n)),
                },
                s.skip(8 + n),
            )
        }
    }
}

/// `n` texts, behind those in `before`.
pub open spec fn stream_texts(s: Seq<u8>, n: nat, before: Seq<Seq<char>>) -> (
    Result<Seq<Seq<char>>, GgufError>,
    Seq<u8>,
)
    decreases n,
{
    if n == 0 {
        (Ok(before), s)
    } else {
        let (text, rest) = stream_text(s);
        match text {
            Ok(t) => stream_texts(rest, (n - 1) as nat, before.push(t)),
            Err(e) => (Err(e), rest),
        }
    }
}

/// Whether the elements of an array are kept in memory, and their size in bytes
/// where that is fixed.
pub open spec fn element_size(t: GgufValueType) -> int {
    match t {
        GgufValueType::Bool => 1,
        GgufValueType::I32 | GgufValueType::F32 => 4,
        _ => 8,
    }
}

/// An array: the type of its elements, their number, and the elements.
pub open spec fn stream_array(s: Seq<u8>) -> (Result<ValueView, GgufError>, Seq<u8>) {
    if s.len() < 4 {
        short()
    } else {
        match value_type_with(u32_at(s, 0)) {
            None => (Err(GgufError::UnknownElementType), s.skip(4)),
            Some(t) => if s.len() < 12 {
                short()
            } else {
                stream_elements(s.skip(12), t, u64_at(s, 4) as nat)
            },
        }
    }
}

/// The `n` elements of an array.
pub open spec fn stream_elements(s: Seq<u8>, t: GgufValueType, n: nat) -> (
    Result<ValueView, GgufError>,
    Seq<u8>,
) {
    match t {
        GgufValueType::String => {
            let (ts, rest) = stream_texts(s, n, seq![]);
            (
                match ts {
                    Ok(v) => Ok(ValueView::StringVec(v)),
                    Err(e) => Err(e),
                },
                rest,
            )
        },
        GgufValueType::Bool | GgufValueType::I32 | GgufValueType::F32 | GgufValueType::U64 => if s.len()
            < element_size(t) * n {
            short()
        } else {
            (
                Ok(
                    match t {
                        GgufValueType::Bool => ValueView::U8Vec(
                            Seq::new(
                                n,
                                |i: int|
                                    if s[i] != 0 {
                                        1u8
                                    } else {
                                        0u8
                                    },
                            ),
                        ),
                        GgufValueType::I32 => ValueView::I32Vec(i32s_at(s, 0, n)),
                        GgufValueType::F32 => ValueView::F32Vec(u32s_at(s, 0, n)),
                        _ => ValueView::U64Vec(u64s_at(s, 0, n)),
                    },
                ),
                s.skip(element_size(t) * n),
            )
        },
        _ => (Err(GgufError::UnsupportedArrayType), s),
    }
}

/// The bytes that a value of fixed size takes in a stream, where 16-bit integers
/// stand in four bytes.
pub open spec fn stream_size(t: GgufValueType) -> int {
    match t {
        GgufValueType::Bool | GgufValueType::U8 | GgufValueType::I8 => 1,
        GgufValueType::U64 | GgufValueType::I64 | GgufValueType::F64 => 8,
        _ => 4,
    }
}

/// The value of a fixed-size type at the front of a stream.
pub open spec fn stream_fixed(s: Seq<u8>, t: GgufValueType) -> ValueView {
    match t {
        GgufValueType::Bool => ValueView::Bool(s[0] != 0),
        GgufValueType::U8 => ValueView::U8(s[0]),
        GgufValueType::I8 => ValueView::I8(s[0] as i8),
        GgufValueType::U16 => ValueView::U16(u32_at(s, 0) as u16),
        GgufValueType::I16 => ValueView::I16(u32_at(s, 0) as i16),
        GgufValueType::U32 => ValueView::U32(u32_at(s, 0)),
        GgufValueType::I32 => ValueView::I32(u32_at(s, 0) as i32),
        GgufValueType::F32 => ValueView::F32(u32_at(s, 0)),
        GgufValueType::U64 => ValueView::U64(u64_at(s, 0)),
        GgufValueType::I64 => ValueView::I64(u64_at(s, 0) as i64),
        _ => ValueView::F64(u64_at(s, 0)),
    }
}

/// A value of a given type.
pub open spec fn stream_value(s: Seq<u8>, t: GgufValueType) -> (
    Result<ValueView, GgufError>,
    Seq<u8>,
) {
    match t {
        GgufValueType::String => {
            let (text, rest) = stream_text(s);
            (
                match text {
                    Ok(v) => Ok(ValueView::String(v)),
                    Err(e) => Err(e),
                },
                rest,
            )
        },
        GgufValueType::Array => stream_array(s),
        _ => if s.len() < stream_size(t) {
            short()
        } else {
            (Ok(stream_fixed(s, t)), s.skip(stream_size(t)))
        },
    }
}

/// One metadata entry.
pub open spec fn stream_entry(s: Seq<u8>) -> (Result<(Seq<char>, ValueView), GgufError>, Seq<u8>) {
    let (text, rest) = stream_text(s);
    match text {
        Err(e) => (Err(e), rest),
        Ok(key) => if rest.len() < 4 {
            short()
        } else {
            match value_type_with(u32_at(rest, 0)) {
                None => (Err(GgufError::UnknownValueType(u32_at(rest, 0))), rest.skip(4)),
                Some(t) => {
                    let (value, end) = stream_value(rest.skip(4), t);
                    (
                        match value {
                            Ok(v) => Ok((key, v)),
                            Err(e) => Err(e),
                        },
                        end,
                    )
                },
            }
        },
    }
}

/// `n` metadata entries, added to those in `before`. The entries ahead of an error
/// are kept.
pub open spec fn stream_entries(s: Seq<u8>, n: nat, before: Map<Seq<char>, ValueView>) -> (
    Map<Seq<char>, ValueView>,
    Result<(), GgufError>,
    Seq<u8>,
)
    decreases n,
{
    if n == 0 {
        (before, Ok(()), s)
    } else {
        let (entry, rest) = stream_entry(s);
        match entry {
            Ok((k, v)) => stream_entries(rest, (n - 1) as nat, before.insert(k, v)),
            Err(e) => (before, Err(e), rest),
        }
    }
}

/// One tensor description.
pub open spec fn stream_tensor(s: Seq<u8>) -> (Result<TensorView, GgufError>, Seq<u8>) {
    let (text, rest) = stream_text(s);
    match text {
        Err(e) => (Err(e), rest),
        Ok(name) => if rest.len() < 4 {
            short()
        } else {
            let n_dims = u32_at(rest, 0);
            let q = 4 + 8 * n_dims;
            if rest.len() < q + 4 {
                short()
            } else {
                match data_type_with(u32_at(rest, q)) {
                    None => (Err(GgufError::UnknownDataType(u32_at(rest, q))), rest.skip(q + 4)),
                    Some(data_type) => if rest.len() < q + 12 {
                        short()
                    } else {
                        (
                            Ok(
                                TensorView {
                                    name,
                                    n_dims,
                                    shape: u64s_at(rest, 4, n_dims as nat),
                                    data_type,
                                    offset: u64_at(rest, q + 4),
                                    stride: Seq::new(n_dims as nat, |i: int| 1usize),
                                },
                            ),
                            rest.skip(q + 12),
                        )
                    },
                }
            }
        },
    }
}

/// `n` tensor descriptions, behind those in `before`. Those ahead of an error are
/// kept.
pub open spec fn stream_tensors(s: Seq<u8>, n: nat, before: Seq<TensorView>) -> (
    Seq<TensorView>,
    Result<(), GgufError>,
    Seq<u8>,
)
    decreases n,
{
    if n == 0 {
        (before, Ok(()), s)
    } else {
        let (tensor, rest) = stream_tensor(s);
        match tensor {
            Ok(t) => stream_tensors(rest, (n - 1) as nat, before.push(t)),
            Err(e) => (before, Err(e), rest),
        }
    }
}

/// The fixed start of a stream. Fields ahead of an error are kept, an unsupported
/// version among them.
pub open spec fn stream_header(s: Seq<u8>, before: ReaderView) -> (
    ReaderView,
    Result<(), GgufError>,
    Seq<u8>,
) {
    let none = Seq::<u8>::empty();
    if s.len() < 4 {
        (before, Err(GgufError::ShortRead), none)
    } else if u32_at(s, 0) != GGUF_MAGIC {
        (before, Err(GgufError::BadMagic(u32_at(s, 0))), s.skip(4))
    } else if s.len() < 8 {
        (before, Err(GgufError::ShortRead), none)
    } else {
        let version = u32_at(s, 4);
        if !is_version(version) {
            (
                ReaderView { version, ..before },
                Err(GgufError::UnsupportedStreamVersion(version)),
                s.skip(8),
            )
        } else if s.len() < 16 {
            (ReaderView { version, ..before }, Err(GgufError::ShortRead), none)
        } else if s.len() < 24 {
            (
                ReaderView { version, tensor_count: u64_at(s, 8), ..before },
                Err(GgufError::ShortRead),
                none,
            )
        } else {
            (
                ReaderView {
                    version,
                    tensor_count: u64_at(s, 8),
                    kv_count: u64_at(s, 16),
                    ..before
                },
                Ok(()),
                s.skip(24),
            )
        }
    }
}

/// The reader's bytes stay the same, and the outcome and what is left are those
/// that are expected.
pub open spec fn streamed<T>(
    before: ByteReader,
    after: ByteReader,
    outcome: Result<T, GgufError>,
    expected: (Result<T, GgufError>, Seq<u8>),
) -> bool {
    &&& after.wf()
    &&& after.bytes == before.bytes
    &&& outcome == expected.0
    &&& after.rest() == expected.1
}

/// The outcome of reading a text.
pub open spec fn text_outcome(r: Result<String, GgufError>) -> Result<Seq<char>, GgufError> {
    match r {
        Ok(t) => Ok(t@),
        Err(e) => Err(e),
    }
}

/// The outcome of reading a value.
pub open spec fn read_outcome(r: Result<GgufValue, GgufError>) -> Result<ValueView, GgufError> {
    match r {
        Ok(v) => Ok(v@),
        Err(e) => Err(e),
    }
}

fn read_text(reader: &mut ByteReader, bo: &GgufByteOrder) -> (r: Result<String, GgufError>)
    requires
        old(reader).wf(),
    ensures
        streamed(*old(reader), *final(reader), text_outcome(r), stream_text(old(reader).rest())),
{
    let ghost s = reader.rest();
    let len: usize = match bo.read_u64(reader) {
        Ok(n) => n as usize,
        Err(e) => {
            return Err(e);
        },
    };
    match reader.take(len as u64) {
        Ok(b) => {
            assert(b@ =~= s.subrange(8, 8 + len));
            assert(reader.rest() =~= s.skip(8 + len));
            match crate::bytes::string_from_utf8(b) {
                Ok(t) => Ok(t),
                Err(flaw) => Err(GgufError::InvalidUtf8(flaw)),
            }
        },
        Err(_) => Err(GgufError::ShortRead),
    }
}

fn read_texts(reader: &mut ByteReader, n: u64, bo: &GgufByteOrder) -> (r: Result<
    Vec<String>,
    GgufError,
>)
    requires
        old(reader).wf(),
    ensures
        streamed(
            *old(reader),
            *final(reader),
            match r {
                Ok(v) => Ok(texts(v@)),
                Err(e) => Err(e),
            },
            stream_texts(old(reader).rest(), n as nat, seq![]),
        ),
{
    let mut out: Vec<String> = Vec::new();
    let mut k: u64 = 0;
    assert(texts(out@) =~= seq![]);
    while k < n
        invariant
            k <= n,
            reader.wf(),
            reader.bytes == old(reader).bytes,
            stream_texts(old(reader).rest(), n as nat, seq![]) == stream_texts(
                reader.rest(),
                (n - k) as nat,
                texts(out@),
            ),
        decreases n - k,
    {
        match read_text(reader, bo) {
            Ok(t) => {
                let ghost before = out@;
                out.push(t);
                assert(texts(out@) =~= texts(before).push(t@));
            },
            Err(e) => {
                return Err(e);
            },
        }
        k += 1;
    }
    Ok(out)
}

fn flags(b: &Vec<u8>) -> (r: Vec<u8>)
    ensures
        r@ == Seq::new(
            b@.len(),
            |i: int|
                if b@[i] != 0 {
                    1u8
                } else {
                    0u8
                },
        ),
{
    let mut out: Vec<u8> = Vec::new();
    let mut i: usize = 0;
    while i < b.len()
        invariant
            i <= b@.len(),
            out@.len() == i,
            forall|j: int|
                0 <= j < i ==> out@[j] == if b@[j] != 0 {
                    1u8
                } else {
                    0u8
                },
        decreases b@.len() - i,
    {
        out.push(
            if b[i] != 0 {
                1
            } else {
                0
            },
        );
        i += 1;
    }
    assert(out@ =~= Seq::new(
        b@.len(),
        |i: int|
            if b@[i] != 0 {
                1u8
            } else {
                0u8
            },
    ));
    out
}

fn read_elements(reader: &mut ByteReader, t: GgufValueType, n: u64, bo: &GgufByteOrder) -> (r:
    Result<GgufValue, GgufError>)
    requires
        old(reader).wf(),
    ensures
        streamed(
            *old(reader),
            *final(reader),
            read_outcome(r),
            stream_elements(old(reader).rest(), t, n as nat),
        ),
{
    let ghost s = reader.rest();
    let size: u64 = match t {
        GgufValueType::Bool => 1,
        GgufValueType::I32 | GgufValueType::F32 => 4,
        GgufValueType::U64 => 8,
        GgufValueType::String => {
            return match read_texts(reader, n, bo) {
                Ok(v) => Ok(GgufValue::StringVec(v)),
                Err(e) => Err(e),
            };
        },
        _ => {
            return Err(GgufError::UnsupportedArrayType);
        },
    };
    let b = match reader.take_items(n, size) {
        Ok(b) => b,
        Err(_) => {
            return Err(GgufError::ShortRead);
        },
    };
    let len: usize = n as usize;
    let v = match t {
        GgufValueType::Bool => GgufValue::U8Vec(flags(&b)),
        GgufValueType::I32 => GgufValue::I32Vec(read_i32s(b.as_slice(), 0, len)),
        GgufValueType::F32 => GgufValue::F32Vec(read_u32s(b.as_slice(), 0, len)),
        _ => GgufValue::U64Vec(read_u64s(b.as_slice(), 0, len)),
    };
    assert(v@ =~~= stream_elements(s, t, n as nat).0->Ok_0);
    Ok(v)
}

/// Reads a value of a given type.
pub fn read_value(reader: &mut ByteReader, value_type: GgufValueType, bo: &GgufByteOrder) -> (r:
    Result<GgufValue, GgufError>)
    requires
        old(reader).wf(),
    ensures
        streamed(
            *old(reader),
            *final(reader),
            read_outcome(r),
            stream_value(old(reader).rest(), value_type),
        ),
{
    let ghost s = reader.rest();
    match value_type {
        GgufValueType::Bool => match reader.take(1) {
            Ok(b) => Ok(GgufValue::Bool(b[0] != 0)),
            Err(_) => Err(GgufError::ShortRead),
        },
        GgufValueType::U8 => match reader.take(1) {
            Ok(b) => Ok(GgufValue::U8(b[0])),
            Err(_) => Err(GgufError::ShortRead),
        },
        GgufValueType::I8 => match reader.take(1) {
            Ok(b) => Ok(GgufValue::I8(b[0] as i8)),
            Err(_) => Err(GgufError::ShortRead),
        },
        GgufValueType::U16 => match bo.read_u32(reader) {
            Ok(v) => Ok(GgufValue::U16(v as u16)),
            Err(e) => Err(e),
        },
        GgufValueType::I16 => match bo.read_u32(reader) {
            Ok(v) => Ok(GgufValue::I16(v as i16)),
            Err(e) => Err(e),
        },
        GgufValueType::U32 => match bo.read_u32(reader) {
            Ok(v) => Ok(GgufValue::U32(v)),
            Err(e) => Err(e),
        },
        GgufValueType::I32 => match bo.read_u32(reader) {
            Ok(v) => Ok(GgufValue::I32(v as i32)),
            Err(e) => Err(e),
        },
        GgufValueType::F32 => match bo.read_u32(reader) {
            Ok(v) => Ok(GgufValue::F32(v)),
            Err(e) => Err(e),
        },
        GgufValueType::U64 => match bo.read_u64(reader) {
            Ok(v) => Ok(GgufValue::U64(v)),
            Err(e) => Err(e),
        },
        GgufValueType::I64 => match bo.read_u64(reader) {
            Ok(v) => Ok(GgufValue::I64(v as i64)),
            Err(e) => Err(e),
        },
        GgufValueType::F64 => match bo.read_u64(reader) {
            Ok(v) => Ok(GgufValue::F64(v)),
            Err(e) => Err(e),
        },
        GgufValueType::String => match read_text(reader, bo) {
            Ok(t) => Ok(GgufValue::String(t)),
            Err(e) => Err(e),
        },
        GgufValueType::Array => {
            let t = match bo.read_u32(reader) {
                Ok(id) => match GgufValueType::from_id(id) {
                    Some(t) => t,
                    None => {
                        return Err(GgufError::UnknownElementType);
                    },
                },
                Err(e) => {
                    return Err(e);
                },
            };
            match bo.read_u64(reader) {
                Ok(n) => {
                    assert(reader.rest() =~= s.skip(12));
                    read_elements(reader, t, n, bo)
                },
                Err(e) => Err(e),
            }
        },
    }
}

fn read_entry(reader: &mut ByteReader, bo: &GgufByteOrder) -> (r: Result<
    (String, GgufValue),
    GgufError,
>)
    requires
        old(reader).wf(),
    ensures
        streamed(
            *old(reader),
            *final(reader),
            match r {
                Ok((k, v)) => Ok((k@, v@)),
                Err(e) => Err(e),
            },
            stream_entry(old(reader).rest()),
        ),
{
    let key = match read_text(reader, bo) {
        Ok(t) => t,
        Err(e) => {
            return Err(e);
        },
    };
    let t = match bo.read_u32(reader) {
        Ok(id) => match GgufValueType::from_id(id) {
            Some(t) => t,
            None => {
                return Err(GgufError::UnknownValueType(id));
            },
        },
        Err(e) => {
            return Err(e);
        },
    };
    match read_value(reader, t, bo) {
        Ok(v) => Ok((key, v)),
        Err(e) => Err(e),
    }
}

pub(crate) fn read_entries(
    m: &mut NameMap<GgufValue>,
    reader: &mut ByteReader,
    n: u64,
    bo: &GgufByteOrder,
) -> (r: Result<(), GgufError>)
    requires
        old(reader).wf(),
    ensures
        final(reader).wf(),
        final(reader).bytes == old(reader).bytes,
        (final(m)@, r, final(reader).rest()) == stream_entries(
            old(reader).rest(),
            n as nat,
            old(m)@,
        ),
{
    let mut k: u64 = 0;
    while k < n
        invariant
            k <= n,
            reader.wf(),
            reader.bytes == old(reader).bytes,
            stream_entries(old(reader).rest(), n as nat, old(m)@) == stream_entries(
                reader.rest(),
                (n - k) as nat,
                m@,
            ),
        decreases n - k,
    {
        match read_entry(reader, bo) {
            Ok((key, value)) => {
                m.insert(key, value);
            },
            Err(e) => {
                return Err(e);
            },
        }
        k += 1;
    }
    Ok(())
}

fn read_tensor(reader: &mut ByteReader, bo: &GgufByteOrder) -> (r: Result<TensorInfo, GgufError>)
    requires
        old(reader).wf(),
    ensures
        streamed(
            *old(reader),
            *final(reader),
            match r {
                Ok(t) => Ok(t@),
                Err(e) => Err(e),
            },
            stream_tensor(old(reader).rest()),
        ),
{
    let name = match read_text(reader, bo) {
        Ok(t) => t,
        Err(e) => {
            return Err(e);
        },
    };
    let ghost rest = reader.rest();
    let n_dims: u32 = match bo.read_u32(reader) {
        Ok(n) => n,
        Err(e) => {
            return Err(e);
        },
    };
    let ghost q = 4 + 8 * n_dims;
    let dims = match reader.take_items(n_dims as u64, 8) {
        Ok(b) => b,
        Err(_) => {
            return Err(GgufError::ShortRead);
        },
    };
    let shape = read_u64s(dims.as_slice(), 0, n_dims as usize);
    assert(shape@ =~= u64s_at(rest, 4, n_dims as nat));
    assert(reader.rest() =~= rest.skip(q));
    let data_type = match bo.read_u32(reader) {
        Ok(id) => {
            assert(reader.rest() =~= rest.skip(q + 4));
            match GgufDataType::from_id(id) {
                Some(t) => t,
                None => {
                    return Err(GgufError::UnknownDataType(id));
                },
            }
        },
        Err(e) => {
            return Err(e);
        },
    };
    let offset: u64 = match bo.read_u64(reader) {
        Ok(n) => n,
        Err(e) => {
            return Err(e);
        },
    };
    assert(reader.rest() =~= rest.skip(q + 12));
    Ok(TensorInfo { name, n_dims, shape, data_type, offset, stride: ones(n_dims) })
}

pub(crate) fn read_tensor_table(
    tensors: &mut Vec<TensorInfo>,
    reader: &mut ByteReader,
    n: u64,
    bo: &GgufByteOrder,
) -> (r: Result<(), GgufError>)
    requires
        old(reader).wf(),
    ensures
        final(reader).wf(),
        final(reader).bytes == old(reader).bytes,
        (tensor_views(final(tensors)@), r, final(reader).rest()) == stream_tensors(
            old(reader).rest(),
            n as nat,
            tensor_views(old(tensors)@),
        ),
{
    let mut k: u64 = 0;
    while k < n
        invariant
            k <= n,
            reader.wf(),
            reader.bytes == old(reader).bytes,
            stream_tensors(old(reader).rest(), n as nat, tensor_views(old(tensors)@))
                == stream_tensors(reader.rest(), (n - k) as nat, tensor_views(tensors@)),
        decreases n - k,
    {
        match read_tensor(reader, bo) {
            Ok(t) => {
                let ghost before = tensors@;
                tensors.push(t);
                assert(tensor_views(tensors@) =~= tensor_views(before).push(t@));
            },
            Err(e) => {
                return Err(e);
            },
        }
        k += 1;
    }
    Ok(())
}

} // verus!
