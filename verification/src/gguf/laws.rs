//! What holds of both ways of reading GGUF input.

use crate::bytes::{text_at, u32_at, u64_at};
use crate::gguf::error::{FilePart, GgufError};
use crate::gguf::metadata::{MetadataView, TensorView};
use crate::gguf::reader::{stream_file, ReaderView};
use crate::gguf::scan::{
    fixed_size, i32s_at, passed_over, scan_entries, scan_entry, scan_file, scan_header, scan_name, scan_tensor,
    scan_tensors, scan_text, scan_texts, scan_value, stated_alignment, u32s_at, u64s_at, Fault,
};
use crate::gguf::stream::{
    stream_entries, stream_entry, stream_tensor, stream_tensors, stream_text,
    stream_texts, stream_value,
};
use crate::gguf::types::{value_type_with, GgufValueType};
use crate::gguf::value::ValueView;
use vstd::prelude::*;

verus! {

/// A value takes the same bytes in memory and in a stream, and is kept either way.
pub open spec fn common_value(data: Seq<u8>, pos: int, t: GgufValueType) -> bool {
    match t {
        GgufValueType::U16 | GgufValueType::I16 => false,
        GgufValueType::Array => match value_type_with(u32_at(data, pos)) {
            Some(GgufValueType::I32) => true,
            Some(GgufValueType::F32) => true,
            Some(GgufValueType::String) => true,
            _ => false,
        },
        _ => true,
    }
}

/// The value of an entry takes the same bytes in memory and in a stream, and is kept
/// either way.
pub open spec fn common_entry(data: Seq<u8>, pos: int) -> bool {
    match scan_name(data, pos, FilePart::KeyLength, FilePart::Key) {
        Err(_) => false,
        Ok((key, p)) => match value_type_with(u32_at(data, p)) {
            None => false,
            Some(t) => common_value(data, p + 4, t),
        },
    }
}

/// So do the values of `n` entries.
pub open spec fn common_entries(data: Seq<u8>, pos: int, n: nat) -> bool
    decreases n,
{
    n == 0 || {
        &&& common_entry(data, pos)
        &&& match scan_entry(data, pos) {
            Err(_) => false,
            Ok((k, v, next)) => common_entries(data, next, (n - 1) as nat),
        }
    }
}

proof fn lemma_numbers(data: Seq<u8>, pos: int, at: int)
    requires
        0 <= pos <= data.len(),
        0 <= at,
    ensures
        pos + at + 4 <= data.len() ==> u32_at(data.skip(pos), at) == u32_at(data, pos + at),
        pos + at + 8 <= data.len() ==> u64_at(data.skip(pos), at) == u64_at(data, pos + at),
{
}

proof fn lemma_skip(data: Seq<u8>, pos: int, more: int)
    requires
        0 <= pos,
        0 <= more,
        pos + more <= data.len(),
    ensures
        data.skip(pos).skip(more) == data.skip(pos + more),
{
    assert(data.skip(pos).skip(more) =~= data.skip(pos + more));
}

proof fn lemma_text(data: Seq<u8>, pos: int, n: int)
    requires
        0 <= pos,
        0 <= n,
        pos + 8 + n <= data.len(),
        u64_at(data, pos) as usize == n,
        text_at(data, pos + 8, pos + 8 + n) is Some,
    ensures
        stream_text(data.skip(pos)) == (
            Ok::<Seq<char>, GgufError>(text_at(data, pos + 8, pos + 8 + n)->0),
            data.skip(pos + 8 + n),
        ),
{
    lemma_numbers(data, pos, 0);
    lemma_skip(data, pos, 8 + n);
    assert(data.skip(pos).subrange(8, 8 + n) =~= data.subrange(pos + 8, pos + 8 + n));
}

proof fn lemma_texts(data: Seq<u8>, pos: int, n: nat, before: Seq<Seq<char>>)
    requires
        0 <= pos <= data.len(),
        scan_texts(data, pos, n, before) is Ok,
    ensures
        ({
            let (ts, end) = scan_texts(data, pos, n, before)->Ok_0;
            &&& pos <= end <= data.len()
            &&& stream_texts(data.skip(pos), n, before) == (
                Ok::<Seq<Seq<char>>, GgufError>(ts),
                data.skip(end),
            )
        }),
    decreases n,
{
    if n > 0 {
        let (t, len) = scan_text(data, pos)->Ok_0;
        lemma_text(data, pos, len);
        lemma_texts(data, pos + 8 + len, (n - 1) as nat, before.push(t));
    }
}

proof fn lemma_array(data: Seq<u8>, pos: int)
    requires
        0 <= pos <= data.len(),
        common_value(data, pos, GgufValueType::Array),
        scan_value(data, pos, GgufValueType::Array) is Ok,
    ensures
        ({
            let (v, len) = scan_value(data, pos, GgufValueType::Array)->Ok_0;
            &&& 0 <= len
            &&& pos + len <= data.len()
            &&& stream_value(data.skip(pos), GgufValueType::Array) == (
                Ok::<ValueView, GgufError>(v),
                data.skip(pos + len),
            )
        }),
{
    lemma_numbers(data, pos, 0);
    lemma_numbers(data, pos, 4);
    lemma_skip(data, pos, 12);
    let n = u64_at(data, pos + 4);
    let s = data.skip(pos + 12);
    match value_type_with(u32_at(data, pos)) {
        Some(GgufValueType::String) => {
            lemma_texts(data, pos + 12, n as nat, seq![]);
        },
        Some(GgufValueType::I32) => {
            lemma_skip(data, pos + 12, 4 * n);
            assert forall|i: int| 0 <= i < n implies #[trigger] i32s_at(s, 0, n as nat)[i]
                == i32s_at(data, pos + 12, n as nat)[i] by {
                lemma_numbers(data, pos + 12, 4 * i);
            }
            assert(i32s_at(s, 0, n as nat) =~= i32s_at(data, pos + 12, n as nat));
        },
        Some(GgufValueType::F32) => {
            lemma_skip(data, pos + 12, 4 * n);
            assert forall|i: int| 0 <= i < n implies #[trigger] u32s_at(s, 0, n as nat)[i]
                == u32s_at(data, pos + 12, n as nat)[i] by {
                lemma_numbers(data, pos + 12, 4 * i);
            }
            assert(u32s_at(s, 0, n as nat) =~= u32s_at(data, pos + 12, n as nat));
        },
        _ => {},
    }
}

/// An array of truth values or of 64-bit unsigned integers, which only a stream keeps,
/// ends at the same place either way, where all of it is there.
pub proof fn passed_over_arrays_end_alike(data: Seq<u8>, pos: int)
    requires
        0 <= pos <= data.len(),
        value_type_with(u32_at(data, pos)) == Some(GgufValueType::Bool) || value_type_with(
            u32_at(data, pos),
        ) == Some(GgufValueType::U64),
        scan_value(data, pos, GgufValueType::Array) is Ok,
        pos + scan_value(data, pos, GgufValueType::Array)->Ok_0.1 <= data.len(),
    ensures
        ({
            let (v, len) = scan_value(data, pos, GgufValueType::Array)->Ok_0;
            &&& stream_value(data.skip(pos), GgufValueType::Array).0 is Ok
            &&& stream_value(data.skip(pos), GgufValueType::Array).1 == data.skip(pos + len)
        }),
{
    lemma_numbers(data, pos, 0);
    lemma_numbers(data, pos, 4);
    lemma_skip(data, pos, 12);
    let n = u64_at(data, pos + 4);
    if value_type_with(u32_at(data, pos)) == Some(GgufValueType::Bool) {
        lemma_skip(data, pos + 12, n as int);
    } else {
        lemma_skip(data, pos + 12, 8 * n);
    }
}

/// Arrays that are passed over follow each other: some of them end where the others start.
pub proof fn passed_over_in_turn(data: Seq<u8>, pos: int, texts: nat, first: nat, more: nat)
    ensures
        passed_over(data, pos, texts, first + more) == match passed_over(data, pos, texts, first) {
            Ok(end) => passed_over(data, end, 0, more),
            Err(f) => Err(f),
        },
    decreases
            (if pos < data.len() {
                data.len() - pos
            } else {
                0
            }),
{
    if texts > 0 {
        if pos + 8 <= data.len() {
            let next = pos + 8 + u64_at(data, pos) as usize as int;
            passed_over_in_turn(data, next, (texts - 1) as nat, first, more);
        }
    } else if first > 0 && pos + 12 <= data.len() {
        let n = u64_at(data, pos + 4) as nat;
        let fewer = (first - 1) as nat;
        match value_type_with(u32_at(data, pos)) {
            Some(GgufValueType::String) => {
                passed_over_in_turn(data, pos + 12, n, fewer, more);
            },
            Some(GgufValueType::Array) => {
                passed_over_in_turn(data, pos + 12, 0, fewer + n, more);
            },
            Some(t) => {
                lemma_forward(n as int, fixed_size(t));
                passed_over_in_turn(data, pos + 12 + n * fixed_size(t), 0, fewer, more);
            },
            None => {},
        }
    }
}

proof fn lemma_forward(n: int, size: int)
    requires
        0 <= n,
        0 <= size,
    ensures
        0 <= n * size,
{
    assert(0 <= n * size) by (nonlinear_arith)
        requires
            0 <= n,
            0 <= size,
    ;
}

proof fn lemma_texts_passed(data: Seq<u8>, pos: int, n: nat, before: Seq<Seq<char>>)
    requires
        0 <= pos,
        scan_texts(data, pos, n, before) is Ok,
    ensures
        passed_over(data, pos, n, 0) == Ok::<int, Fault>(scan_texts(data, pos, n, before)->Ok_0.1),
    decreases n,
{
    if n > 0 {
        let (t, len) = scan_text(data, pos)->Ok_0;
        lemma_texts_passed(data, pos + 8 + len, (n - 1) as nat, before.push(t));
    }
}

/// An array within another is passed over by as many bytes as it takes where it is read.
pub proof fn passed_over_as_read(data: Seq<u8>, pos: int)
    requires
        0 <= pos,
        scan_value(data, pos, GgufValueType::Array) is Ok,
    ensures
        passed_over(data, pos, 0, 1) == Ok::<int, Fault>(
            pos + scan_value(data, pos, GgufValueType::Array)->Ok_0.1,
        ),
{
    reveal_with_fuel(passed_over, 2);
    let n = u64_at(data, pos + 4) as nat;
    match value_type_with(u32_at(data, pos)) {
        Some(GgufValueType::String) => {
            lemma_texts_passed(data, pos + 12, n, seq![]);
        },
        Some(GgufValueType::Array) => {},
        Some(t) => {
            lemma_forward(n as int, fixed_size(t));
        },
        None => {},
    }
}

/// A stream with an array of arrays is refused; in memory the array is passed over, and
/// stands as an empty list.
pub proof fn nested_arrays_are_not_kept(data: Seq<u8>, pos: int)
    requires
        0 <= pos,
        pos + 12 <= data.len(),
        value_type_with(u32_at(data, pos)) == Some(GgufValueType::Array),
    ensures
        stream_value(data.skip(pos), GgufValueType::Array).0 == Err::<ValueView, GgufError>(
            GgufError::UnsupportedArrayType,
        ),
        scan_value(data, pos, GgufValueType::Array) matches Ok((v, len)) ==> {
            &&& v == ValueView::I32Vec(seq![])
            &&& passed_over(data, pos + 12, 0, u64_at(data, pos + 4) as nat) == Ok::<int, Fault>(
                pos + len,
            )
        },
{
    lemma_numbers(data, pos, 0);
    lemma_numbers(data, pos, 4);
}

proof fn lemma_value(data: Seq<u8>, pos: int, t: GgufValueType)
    requires
        0 <= pos <= data.len(),
        common_value(data, pos, t),
        scan_value(data, pos, t) is Ok,
    ensures
        ({
            let (v, len) = scan_value(data, pos, t)->Ok_0;
            &&& 0 <= len
            &&& pos + len <= data.len()
            &&& stream_value(data.skip(pos), t) == (
                Ok::<ValueView, GgufError>(v),
                data.skip(pos + len),
            )
        }),
{
    match t {
        GgufValueType::Array => {
            lemma_array(data, pos);
        },
        GgufValueType::String => {
            let (text, len) = scan_text(data, pos)->Ok_0;
            lemma_text(data, pos, len);
        },
        _ => {
            let (v, len) = scan_value(data, pos, t)->Ok_0;
            lemma_numbers(data, pos, 0);
            lemma_skip(data, pos, len);
        },
    }
}

proof fn lemma_entry(data: Seq<u8>, pos: int)
    requires
        0 <= pos <= data.len() <= usize::MAX,
        common_entry(data, pos),
        scan_entry(data, pos) is Ok,
    ensures
        ({
            let (k, v, next) = scan_entry(data, pos)->Ok_0;
            &&& pos <= next <= data.len()
            &&& stream_entry(data.skip(pos)) == (
                Ok::<(Seq<char>, ValueView), GgufError>((k, v)),
                data.skip(next),
            )
        }),
{
    let (key, p) = scan_name(data, pos, FilePart::KeyLength, FilePart::Key)->Ok_0;
    lemma_text(data, pos, p - pos - 8);
    lemma_numbers(data, p, 0);
    lemma_skip(data, p, 4);
    lemma_value(data, p + 4, value_type_with(u32_at(data, p))->0);
}

proof fn lemma_entries(data: Seq<u8>, pos: int, n: nat, before: Map<Seq<char>, ValueView>)
    requires
        0 <= pos <= data.len() <= usize::MAX,
        common_entries(data, pos, n),
        scan_entries(data, pos, n, before).1 is Ok,
    ensures
        ({
            let (after, end) = scan_entries(data, pos, n, before);
            &&& pos <= end->Ok_0 <= data.len()
            &&& stream_entries(data.skip(pos), n, before) == (
                after,
                Ok::<(), GgufError>(()),
                data.skip(end->Ok_0),
            )
        }),
    decreases n,
{
    if n > 0 {
        let (k, v, next) = scan_entry(data, pos)->Ok_0;
        lemma_entry(data, pos);
        lemma_entries(data, next, (n - 1) as nat, before.insert(k, v));
    }
}

proof fn lemma_tensor(data: Seq<u8>, pos: int)
    requires
        0 <= pos <= data.len() <= usize::MAX,
        scan_tensor(data, pos) is Ok,
    ensures
        ({
            let (t, next) = scan_tensor(data, pos)->Ok_0;
            &&& pos <= next <= data.len()
            &&& stream_tensor(data.skip(pos)) == (
                Ok::<TensorView, GgufError>(t),
                data.skip(next),
            )
        }),
{
    let (name, p) = scan_name(
        data,
        pos,
        FilePart::TensorNameLength,
        FilePart::TensorName,
    )->Ok_0;
    lemma_text(data, pos, p - pos - 8);
    lemma_numbers(data, p, 0);
    let n = u32_at(data, p);
    let q = 4 + 8 * n;
    lemma_numbers(data, p, q);
    lemma_numbers(data, p, q + 4);
    lemma_skip(data, p, q + 12);
    let rest = data.skip(p);
    assert forall|i: int| 0 <= i < n implies #[trigger] u64s_at(rest, 4, n as nat)[i] == u64s_at(
        data,
        p + 4,
        n as nat,
    )[i] by {
        lemma_numbers(data, p, 4 + 8 * i);
    }
    assert(u64s_at(rest, 4, n as nat) =~= u64s_at(data, p + 4, n as nat));
}

proof fn lemma_tensors(data: Seq<u8>, pos: int, n: nat, before: Seq<TensorView>)
    requires
        0 <= pos <= data.len() <= usize::MAX,
        scan_tensors(data, pos, n, before).1 is Ok,
    ensures
        ({
            let (after, end) = scan_tensors(data, pos, n, before);
            &&& pos <= end->Ok_0 <= data.len()
            &&& stream_tensors(data.skip(pos), n, before) == (
                after,
                Ok::<(), GgufError>(()),
                data.skip(end->Ok_0),
            )
        }),
    decreases n,
{
    if n > 0 {
        let (t, next) = scan_tensor(data, pos)->Ok_0;
        lemma_tensor(data, pos);
        lemma_tensors(data, next, (n - 1) as nat, before.push(t));
    }
}

/// What a stream says of a file that is read from memory: the alignment as it is
/// stated, and not where the tensor data starts.
pub open spec fn as_streamed(m: MetadataView) -> MetadataView {
    MetadataView { alignment: stated_alignment(m.metadata), tensor_data_offset: 0, ..m }
}

/// A file that is read from memory is read as a stream too, and says the same either
/// way, where no value is one of 16 bits, or an array of other elements than texts and
/// 32-bit signed integers and floating-point numbers.
pub proof fn streams_read_alike(data: Seq<u8>, before: ReaderView)
    requires
        data.len() <= usize::MAX,
        scan_file(data, before).1 is Ok,
        common_entries(data, 24, u64_at(data, 16) as nat),
    ensures
        stream_file(data, before).0 == scan_file(data, before).0,
        stream_file(data, before).1 == Ok::<MetadataView, GgufError>(
            as_streamed(scan_file(data, before).1->Ok_0),
        ),
{
    let (version, tensor_count, kv_count) = scan_header(data)->Ok_0;
    let (metadata, entries_end) = scan_entries(data, 24, kv_count as nat, before.metadata);
    lemma_entries(data, 24, kv_count as nat, before.metadata);
    lemma_tensors(data, entries_end->Ok_0, tensor_count as nat, before.tensors);
}

} // verus!
