//! What the bytes of a GGUF file mean.

use crate::bytes::{text_at, u16_at, u32_at, u64_at, u64_bytes, u64_round_trip, utf8_flaw};
use crate::gguf::error::{hex_items, hex_list, FilePart, GgufError};
use crate::gguf::metadata::{
    lookup_f32, lookup_i32, lookup_str, lookup_usize, value_as_usize, TensorView,
};
use crate::gguf::reader::ReaderView;
use crate::gguf::scan::{
    data_alignment, scan_array, scan_entries, scan_entry, scan_file, scan_header, scan_name,
    scan_tensor, scan_tensors, scan_text, scan_texts, scan_value, Fault,
};
use crate::gguf::stream::{stream_elements, stream_text, stream_value};
use crate::gguf::types::{
    data_type_id_round_trip, data_type_with, value_type_with, GgufDataType, GgufValueType,
};
use crate::gguf::value::ValueView;
use vstd::prelude::*;
use vstd::utf8::{encode_utf8, encode_utf8_decode_utf8, encode_utf8_valid_utf8, valid_utf8};

verus! {

/// The number whose `n` bytes stand at a position, the lowest first.
pub open spec fn number_at(data: Seq<u8>, pos: int, n: nat) -> int
    decreases n,
{
    if n == 0 {
        0
    } else {
        data[pos] + 256 * number_at(data, pos + 1, (n - 1) as nat)
    }
}

/// The same number read with a sign: the upper half of the range stands for the numbers
/// below zero. `half` is half the number of values.
pub open spec fn signed(v: int, half: int) -> int {
    if v < half {
        v
    } else {
        v - 2 * half
    }
}

/// Integers have their lowest byte first.
pub proof fn lowest_bytes_come_first(data: Seq<u8>, pos: int)
    ensures
        u16_at(data, pos) == number_at(data, pos, 2),
        u32_at(data, pos) == number_at(data, pos, 4),
        u64_at(data, pos) == number_at(data, pos, 8),
{
    reveal_with_fuel(number_at, 9);
}

pub proof fn lemma_signs(a: u8, b: u16, c: u32, d: u64)
    ensures
        a as i8 == signed(a as int, 0x80),
        b as i16 == signed(b as int, 0x8000),
        c as i32 == signed(c as int, 0x8000_0000),
        d as i64 == signed(d as int, 0x8000_0000_0000_0000),
{
    assert(a as i8 == if a < 0x80 { a as int } else { a - 0x100 }) by (bit_vector);
    assert(b as i16 == if b < 0x8000 { b as int } else { b - 0x1_0000 }) by (bit_vector);
    assert(c as i32 == if c < 0x8000_0000 { c as int } else { c - 0x1_0000_0000 }) by (bit_vector);
    assert(d as i64 == if d < 0x8000_0000_0000_0000 { d as int } else {
        d - 0x1_0000_0000_0000_0000
    }) by (bit_vector);
}

proof fn lemma_halves(c: u32)
    ensures
        c as u16 == c % 0x1_0000,
        c as i16 == signed((c % 0x1_0000) as int, 0x8000),
{
    assert(c as u16 == c % 0x1_0000) by (bit_vector);
    assert(c as i16 == if c % 0x1_0000 < 0x8000 { (c % 0x1_0000) as int } else {
        c % 0x1_0000 - 0x1_0000
    }) by (bit_vector);
}

/// A value of fixed size is the number that its bytes make up, with a sign where its type
/// has one. It takes as many bytes as its type has.
pub proof fn values_are_their_bytes(data: Seq<u8>, pos: int)
    requires
        0 <= pos,
        pos + 8 <= data.len(),
    ensures
        scan_value(data, pos, GgufValueType::Bool) == Ok::<(ValueView, int), Fault>(
            (ValueView::Bool(data[pos] != 0), 1),
        ),
        scan_value(data, pos, GgufValueType::U8) == Ok::<(ValueView, int), Fault>(
            (ValueView::U8(data[pos]), 1),
        ),
        scan_value(data, pos, GgufValueType::I8) matches Ok((ValueView::I8(v), n)) && n == 1 && v == signed(
            number_at(data, pos, 1),
            0x80,
        ),
        scan_value(data, pos, GgufValueType::U16) matches Ok((ValueView::U16(v), n)) && n == 2 && v
            == number_at(data, pos, 2),
        scan_value(data, pos, GgufValueType::I16) matches Ok((ValueView::I16(v), n)) && n == 2 && v == signed(
            number_at(data, pos, 2),
            0x8000,
        ),
        scan_value(data, pos, GgufValueType::U32) matches Ok((ValueView::U32(v), n)) && n == 4 && v
            == number_at(data, pos, 4),
        scan_value(data, pos, GgufValueType::I32) matches Ok((ValueView::I32(v), n)) && n == 4 && v == signed(
            number_at(data, pos, 4),
            0x8000_0000,
        ),
        scan_value(data, pos, GgufValueType::F32) matches Ok((ValueView::F32(v), n)) && n == 4 && v
            == number_at(data, pos, 4),
        scan_value(data, pos, GgufValueType::U64) matches Ok((ValueView::U64(v), n)) && n == 8 && v
            == number_at(data, pos, 8),
        scan_value(data, pos, GgufValueType::I64) matches Ok((ValueView::I64(v), n)) && n == 8 && v == signed(
            number_at(data, pos, 8),
            0x8000_0000_0000_0000,
        ),
        scan_value(data, pos, GgufValueType::F64) matches Ok((ValueView::F64(v), n)) && n == 8 && v
            == number_at(data, pos, 8),
{
    lowest_bytes_come_first(data, pos);
    lemma_signs(data[pos], u16_at(data, pos), u32_at(data, pos), u64_at(data, pos));
    reveal_with_fuel(number_at, 2);
}

/// In a stream a value of fixed size is the number that its bytes make up too. An integer
/// of 16 bits takes four bytes there, of which the lower two count.
pub proof fn streamed_values_are_their_bytes(s: Seq<u8>)
    requires
        s.len() >= 8,
    ensures
        stream_value(s, GgufValueType::Bool).0 matches Ok(ValueView::Bool(v)) && v == (s[0] != 0),
        stream_value(s, GgufValueType::U8).0 matches Ok(ValueView::U8(v)) && v == s[0],
        stream_value(s, GgufValueType::I8).0 matches Ok(ValueView::I8(v)) && v == signed(
            number_at(s, 0, 1),
            0x80,
        ),
        stream_value(s, GgufValueType::U16).0 matches Ok(ValueView::U16(v)) && v == number_at(
            s,
            0,
            2,
        ),
        stream_value(s, GgufValueType::I16).0 matches Ok(ValueView::I16(v)) && v == signed(
            number_at(s, 0, 2),
            0x8000,
        ),
        stream_value(s, GgufValueType::U32).0 matches Ok(ValueView::U32(v)) && v == number_at(
            s,
            0,
            4,
        ),
        stream_value(s, GgufValueType::I32).0 matches Ok(ValueView::I32(v)) && v == signed(
            number_at(s, 0, 4),
            0x8000_0000,
        ),
        stream_value(s, GgufValueType::F32).0 matches Ok(ValueView::F32(v)) && v == number_at(
            s,
            0,
            4,
        ),
        stream_value(s, GgufValueType::U64).0 matches Ok(ValueView::U64(v)) && v == number_at(
            s,
            0,
            8,
        ),
        stream_value(s, GgufValueType::I64).0 matches Ok(ValueView::I64(v)) && v == signed(
            number_at(s, 0, 8),
            0x8000_0000_0000_0000,
        ),
        stream_value(s, GgufValueType::F64).0 matches Ok(ValueView::F64(v)) && v == number_at(
            s,
            0,
            8,
        ),
        stream_value(s, GgufValueType::Bool).1 == s.skip(1),
        stream_value(s, GgufValueType::U8).1 == s.skip(1),
        stream_value(s, GgufValueType::I8).1 == s.skip(1),
        stream_value(s, GgufValueType::U16).1 == s.skip(4),
        stream_value(s, GgufValueType::I16).1 == s.skip(4),
        stream_value(s, GgufValueType::U32).1 == s.skip(4),
        stream_value(s, GgufValueType::I32).1 == s.skip(4),
        stream_value(s, GgufValueType::F32).1 == s.skip(4),
        stream_value(s, GgufValueType::U64).1 == s.skip(8),
        stream_value(s, GgufValueType::I64).1 == s.skip(8),
        stream_value(s, GgufValueType::F64).1 == s.skip(8),
{
    lowest_bytes_come_first(s, 0);
    lemma_signs(s[0], u16_at(s, 0), u32_at(s, 0), u64_at(s, 0));
    lemma_halves(u32_at(s, 0));
    lemma_lower_half(s);
}

proof fn lemma_lower_half(s: Seq<u8>)
    ensures
        u32_at(s, 0) % 0x1_0000 == number_at(s, 0, 2),
        s[0] == number_at(s, 0, 1),
{
    reveal_with_fuel(number_at, 3);
    let high = s[2] + 0x100 * s[3];
    assert(u32_at(s, 0) == u16_at(s, 0) + 0x1_0000 * high);
}

/// A text behind its length in bytes is read as it was encoded.
pub proof fn texts_are_read_as_encoded(before: Seq<u8>, t: Seq<char>, after: Seq<u8>)
    requires
        encode_utf8(t).len() <= usize::MAX,
    ensures
        ({
            let n = encode_utf8(t).len();
            let data = before + (u64_bytes(n as u64) + encode_utf8(t)) + after;
            let pos = before.len() as int;
            &&& scan_text(data, pos) == Ok::<(Seq<char>, int), Fault>((t, n as int))
            &&& scan_value(data, pos, GgufValueType::String) == Ok::<(ValueView, int), Fault>(
                (ValueView::String(t), (8 + n) as int),
            )
            &&& data.len() <= usize::MAX ==> scan_name(data, pos, FilePart::Key, FilePart::Key)
                == Ok::<(Seq<char>, int), Fault>((t, pos + 8 + n))
            &&& before.len() == 0 ==> stream_text(data).0 == Ok::<Seq<char>, GgufError>(t)
            &&& before.len() == 0 ==> stream_text(data).1 == after
        }),
{
    let n = encode_utf8(t).len();
    let data = before + (u64_bytes(n as u64) + encode_utf8(t)) + after;
    let pos = before.len() as int;
    lemma_encoded(before, encode_utf8(t), after);
    encode_utf8_valid_utf8(t);
    encode_utf8_decode_utf8(t);
    assert(u64_at(data, pos) as usize == n);
    assert(text_at(data, pos + 8, pos + 8 + n) == Some(t));
}

proof fn lemma_encoded(before: Seq<u8>, bytes: Seq<u8>, after: Seq<u8>)
    requires
        bytes.len() <= usize::MAX,
    ensures
        ({
            let n = bytes.len();
            let data = before + (u64_bytes(n as u64) + bytes) + after;
            let pos = before.len() as int;
            &&& data.len() == pos + 8 + n + after.len()
            &&& u64_at(data, pos) == n
            &&& data.subrange(pos + 8, pos + 8 + n) == bytes
            &&& data.skip(pos + 8 + n) == after
        }),
{
    let n = bytes.len();
    let data = before + (u64_bytes(n as u64) + bytes) + after;
    let pos = before.len() as int;
    u64_round_trip(before, n as u64, bytes + after);
    assert(before + u64_bytes(n as u64) + (bytes + after) =~= data);
    assert(data.subrange(pos + 8, pos + 8 + n) =~= bytes);
    assert(data.skip(pos + 8 + n) =~= after);
}

/// The elements of an array of numbers stand one behind the other behind its head.
pub proof fn arrays_hold_their_elements(data: Seq<u8>, pos: int, n: int, i: int)
    requires
        0 <= pos,
        0 <= i < n,
        pos + 12 + 4 * n <= data.len(),
        u64_at(data, pos + 4) == n,
    ensures
        number_at(data, pos, 4) == 5 ==> {
            &&& scan_array(data, pos) matches Ok((ValueView::I32Vec(v), len))
            &&& len == 12 + 4 * n
            &&& v.len() == n
            &&& v[i] == signed(number_at(data, pos + 12 + 4 * i, 4), 0x8000_0000)
        },
        number_at(data, pos, 4) == 6 ==> {
            &&& scan_array(data, pos) matches Ok((ValueView::F32Vec(v), len))
            &&& len == 12 + 4 * n
            &&& v.len() == n
            &&& v[i] == number_at(data, pos + 12 + 4 * i, 4)
        },
{
    lowest_bytes_come_first(data, pos);
    lowest_bytes_come_first(data, pos + 12 + 4 * i);
    lemma_signs(0, 0, u32_at(data, pos + 12 + 4 * i), 0);
    numbers_stand_for_value_types();
}

/// In a stream the elements of an array stand one behind the other too.
pub proof fn streamed_arrays_hold_their_elements(s: Seq<u8>, n: nat, i: int)
    requires
        0 <= i < n,
        8 * n <= s.len(),
    ensures
        stream_elements(s, GgufValueType::Bool, n).0 matches Ok(ValueView::U8Vec(v)) && v.len() == n
            && (v[i] == 0 <==> s[i] == 0) && v[i] <= 1,
        stream_elements(s, GgufValueType::I32, n).0 matches Ok(ValueView::I32Vec(v)) && v.len() == n
            && v[i] == signed(number_at(s, 4 * i, 4), 0x8000_0000),
        stream_elements(s, GgufValueType::F32, n).0 matches Ok(ValueView::F32Vec(v)) && v.len() == n
            && v[i] == number_at(s, 4 * i, 4),
        stream_elements(s, GgufValueType::U64, n).0 matches Ok(ValueView::U64Vec(v)) && v.len() == n
            && v[i] == number_at(s, 8 * i, 8),
        stream_elements(s, GgufValueType::Bool, n).1 == s.skip(n as int),
        stream_elements(s, GgufValueType::I32, n).1 == s.skip(4 * n as int),
        stream_elements(s, GgufValueType::F32, n).1 == s.skip(4 * n as int),
        stream_elements(s, GgufValueType::U64, n).1 == s.skip(8 * n as int),
{
    lowest_bytes_come_first(s, 4 * i);
    lowest_bytes_come_first(s, 8 * i);
    lemma_signs(0, 0, u32_at(s, 4 * i), 0);
}

/// Texts of an array are read in their order, one behind the other.
pub proof fn texts_follow_each_other(data: Seq<u8>, pos: int, n: nat, before: Seq<Seq<char>>)
    ensures
        scan_texts(data, pos, n, before) matches Ok((ts, end)) ==> {
            &&& ts.len() == before.len() + n
            &&& ts.take(before.len() as int) == before
            &&& n > 0 ==> {
                &&& scan_text(data, pos) matches Ok((t, len))
                &&& ts[before.len() as int] == t
                &&& scan_texts(data, pos + 8 + len, (n - 1) as nat, before.push(t)) == scan_texts(
                    data,
                    pos,
                    n,
                    before,
                )
            }
            &&& n == 0 ==> end == pos
        },
    decreases n,
{
    if n > 0 && scan_texts(data, pos, n, before) is Ok {
        let (t, len) = scan_text(data, pos)->Ok_0;
        let (ts, end) = scan_texts(data, pos, n, before)->Ok_0;
        texts_follow_each_other(data, pos + 8 + len, (n - 1) as nat, before.push(t));
        let k = before.len() as int;
        assert(ts[k] == ts.take(k + 1)[k]);
        assert(ts.take(k) =~= ts.take(k + 1).take(k));
        assert(before.push(t).take(k) =~= before);
    } else if n == 0 {
        assert(before.take(before.len() as int) =~= before);
    }
}

/// The numbers that stand for the types of metadata values.
pub proof fn numbers_stand_for_value_types()
    ensures
        forall|id: u32| #[trigger] value_type_with(id) is Some <==> id <= 12,
        value_type_with(0) == Some(GgufValueType::U8),
        value_type_with(1) == Some(GgufValueType::I8),
        value_type_with(2) == Some(GgufValueType::U16),
        value_type_with(3) == Some(GgufValueType::I16),
        value_type_with(4) == Some(GgufValueType::U32),
        value_type_with(5) == Some(GgufValueType::I32),
        value_type_with(6) == Some(GgufValueType::F32),
        value_type_with(7) == Some(GgufValueType::Bool),
        value_type_with(8) == Some(GgufValueType::String),
        value_type_with(9) == Some(GgufValueType::Array),
        value_type_with(10) == Some(GgufValueType::U64),
        value_type_with(11) == Some(GgufValueType::I64),
        value_type_with(12) == Some(GgufValueType::F64),
{
    assert(GgufValueType::U8.spec_id() == 0);
    assert(GgufValueType::I8.spec_id() == 1);
    assert(GgufValueType::U16.spec_id() == 2);
    assert(GgufValueType::I16.spec_id() == 3);
    assert(GgufValueType::U32.spec_id() == 4);
    assert(GgufValueType::I32.spec_id() == 5);
    assert(GgufValueType::F32.spec_id() == 6);
    assert(GgufValueType::Bool.spec_id() == 7);
    assert(GgufValueType::String.spec_id() == 8);
    assert(GgufValueType::Array.spec_id() == 9);
    assert(GgufValueType::U64.spec_id() == 10);
    assert(GgufValueType::I64.spec_id() == 11);
    assert(GgufValueType::F64.spec_id() == 12);
}

/// The numbers that stand for the types of tensors that are common in model files.
pub proof fn numbers_stand_for_data_types()
    ensures
        data_type_with(0) == Some(GgufDataType::F32),
        data_type_with(1) == Some(GgufDataType::F16),
        data_type_with(2) == Some(GgufDataType::Q4_0),
        data_type_with(3) == Some(GgufDataType::Q4_1),
        data_type_with(6) == Some(GgufDataType::Q5_0),
        data_type_with(7) == Some(GgufDataType::Q5_1),
        data_type_with(8) == Some(GgufDataType::Q8_0),
        data_type_with(9) == Some(GgufDataType::Q8_1),
        data_type_with(10) == Some(GgufDataType::Q2_K),
        data_type_with(11) == Some(GgufDataType::Q3_K),
        data_type_with(12) == Some(GgufDataType::Q4_K),
        data_type_with(13) == Some(GgufDataType::Q5_K),
        data_type_with(14) == Some(GgufDataType::Q6_K),
        data_type_with(15) == Some(GgufDataType::Q8_K),
        data_type_with(24) == Some(GgufDataType::I8),
        data_type_with(25) == Some(GgufDataType::I16),
        data_type_with(26) == Some(GgufDataType::I32),
        data_type_with(27) == Some(GgufDataType::I64),
        data_type_with(28) == Some(GgufDataType::F64),
        data_type_with(30) == Some(GgufDataType::BF16),
        data_type_with(4) is None,
        data_type_with(5) is None,
        forall|id: u32| id > 47 ==> #[trigger] data_type_with(id) is None,
{
    assert(GgufDataType::F32.spec_id() == 0);
    assert(GgufDataType::F16.spec_id() == 1);
    assert(GgufDataType::Q4_0.spec_id() == 2);
    assert(GgufDataType::Q4_1.spec_id() == 3);
    assert(GgufDataType::Q5_0.spec_id() == 6);
    assert(GgufDataType::Q5_1.spec_id() == 7);
    assert(GgufDataType::Q8_0.spec_id() == 8);
    assert(GgufDataType::Q8_1.spec_id() == 9);
    assert(GgufDataType::Q2_K.spec_id() == 10);
    assert(GgufDataType::Q3_K.spec_id() == 11);
    assert(GgufDataType::Q4_K.spec_id() == 12);
    assert(GgufDataType::Q5_K.spec_id() == 13);
    assert(GgufDataType::Q6_K.spec_id() == 14);
    assert(GgufDataType::Q8_K.spec_id() == 15);
    assert(GgufDataType::I8.spec_id() == 24);
    assert(GgufDataType::I16.spec_id() == 25);
    assert(GgufDataType::I32.spec_id() == 26);
    assert(GgufDataType::I64.spec_id() == 27);
    assert(GgufDataType::F64.spec_id() == 28);
    assert(GgufDataType::BF16.spec_id() == 30);
}

/// Different types of tensors have different numbers.
pub proof fn data_types_are_told_apart(a: GgufDataType, b: GgufDataType)
    requires
        a.spec_id() == b.spec_id(),
    ensures
        a == b,
{
    data_type_id_round_trip(a);
    data_type_id_round_trip(b);
}

/// A file starts with the letters GGUF and a version from one to three, followed by the
/// counts of tensors and of metadata entries. Any other start is refused.
pub proof fn files_start_with_their_counts(data: Seq<u8>)
    ensures
        scan_header(data) is Ok <==> {
            &&& data.len() >= 24
            &&& data[0] == 0x47
            &&& data[1] == 0x47
            &&& data[2] == 0x55
            &&& data[3] == 0x46
            &&& 1 <= number_at(data, 4, 4) <= 3
        },
        scan_header(data) matches Ok((version, tensors, entries)) ==> {
            &&& version == number_at(data, 4, 4)
            &&& tensors == number_at(data, 8, 8)
            &&& entries == number_at(data, 16, 8)
        },
{
    lowest_bytes_come_first(data, 0);
    lowest_bytes_come_first(data, 4);
    lowest_bytes_come_first(data, 8);
    lowest_bytes_come_first(data, 16);
}

/// An entry is a key, the number of its value's type, and the value.
pub proof fn entries_are_keys_and_values(data: Seq<u8>, pos: int)
    requires
        0 <= pos,
    ensures
        scan_entry(data, pos) matches Ok((key, value, end)) ==> {
            &&& scan_text(data, pos) matches Ok((text, len))
            &&& text == key
            &&& value_type_with(u32_at(data, pos + 8 + len)) matches Some(t)
            &&& scan_value(data, pos + 8 + len + 4, t) matches Ok((v, size))
            &&& v == value
            &&& end == pos + 8 + len + 4 + size
        },
{
}

/// What is read of entries is what stands in them: a later entry replaces an earlier one
/// with its key, and other keys keep what they had.
pub proof fn later_entries_count(
    data: Seq<u8>,
    pos: int,
    n: nat,
    before: Map<Seq<char>, ValueView>,
    k: Seq<char>,
)
    requires
        n > 0,
        scan_entry(data, pos) is Ok,
    ensures
        ({
            let (key, value, next) = scan_entry(data, pos)->Ok_0;
            let (m, end) = scan_entries(data, pos, 1, before);
            let (all, _) = scan_entries(data, pos, n, before);
            &&& end == Ok::<int, Fault>(next)
            &&& m.contains_key(key) && m[key] == value
            &&& k != key ==> (m.contains_key(k) <==> before.contains_key(k)) && m[k] == before[k]
            &&& scan_entries(data, next, (n - 1) as nat, m).0 == all
        }),
{
    reveal_with_fuel(scan_entries, 3);
}

/// A tensor is described by its name, its dimensions, the number of its type and where its
/// data lies.
pub proof fn tensors_are_described(data: Seq<u8>, pos: int, i: int)
    requires
        0 <= pos,
    ensures
        scan_tensor(data, pos) matches Ok((t, end)) ==> {
            &&& scan_text(data, pos) matches Ok((text, len))
            &&& text == t.name
            &&& t.n_dims == number_at(data, pos + 8 + len, 4)
            &&& t.shape.len() == t.n_dims
            &&& 0 <= i < t.n_dims ==> t.shape[i] == number_at(data, pos + 12 + len + 8 * i, 8)
            &&& data_type_with(u32_at(data, pos + 12 + len + 8 * t.n_dims)) == Some(t.data_type)
            &&& t.offset == number_at(data, pos + 16 + len + 8 * t.n_dims, 8)
            &&& end == pos + 24 + len + 8 * t.n_dims
            &&& end <= data.len()
        },
{
    if scan_tensor(data, pos) is Ok {
        let (t, end) = scan_tensor(data, pos)->Ok_0;
        let (text, len) = scan_text(data, pos)->Ok_0;
        lowest_bytes_come_first(data, pos + 8 + len);
        lowest_bytes_come_first(data, pos + 12 + len + 8 * i);
        lowest_bytes_come_first(data, pos + 16 + len + 8 * t.n_dims);
    }
}

/// Tensors are described one behind the other, and kept in their order.
pub proof fn tensors_follow_each_other(data: Seq<u8>, pos: int, n: nat, before: Seq<TensorView>)
    ensures
        scan_tensors(data, pos, n, before).1 matches Ok(end) ==> {
            let ts = scan_tensors(data, pos, n, before).0;
            &&& ts.len() == before.len() + n
            &&& ts.take(before.len() as int) == before
            &&& n > 0 ==> {
                &&& scan_tensor(data, pos) matches Ok((t, next))
                &&& ts[before.len() as int] == t
                &&& scan_tensors(data, next, (n - 1) as nat, before.push(t)) == scan_tensors(
                    data,
                    pos,
                    n,
                    before,
                )
            }
            &&& n == 0 ==> end == pos
        },
    decreases n,
{
    if n > 0 && scan_tensors(data, pos, n, before).1 is Ok {
        let (t, next) = scan_tensor(data, pos)->Ok_0;
        let ts = scan_tensors(data, pos, n, before).0;
        tensors_follow_each_other(data, next, (n - 1) as nat, before.push(t));
        let k = before.len() as int;
        assert(ts[k] == ts.take(k + 1)[k]);
        assert(ts.take(k) =~= ts.take(k + 1).take(k));
        assert(before.push(t).take(k) =~= before);
    } else if n == 0 {
        assert(before.take(before.len() as int) =~= before);
    }
}

/// The alignment of a file is what its metadata states in an unsigned integer, and 32
/// where it states none. An alignment of zero stands for one.
pub proof fn stated_alignment_counts(m: Map<Seq<char>, ValueView>)
    ensures
        ({
            let key = "general.alignment"@;
            &&& !m.contains_key(key) ==> data_alignment(m) == 32
            &&& m.contains_key(key) ==> match m[key] {
                ValueView::U32(0) => data_alignment(m) == 1,
                ValueView::U64(0) => data_alignment(m) == 1,
                ValueView::U32(v) => v <= usize::MAX ==> data_alignment(m) == v,
                ValueView::U64(v) => v <= usize::MAX ==> data_alignment(m) == v,
                _ => data_alignment(m) == 32,
            }
        }),
{
}

/// Tensor data starts at the first position behind the tensor descriptions that is a
/// multiple of the alignment.
pub proof fn tensor_data_is_aligned(data: Seq<u8>, before: ReaderView)
    ensures
        scan_file(data, before).1 matches Ok(m) ==> {
            let end = scan_tensors(
                data,
                scan_entries(data, 24, number_at(data, 16, 8) as nat, before.metadata).1->Ok_0,
                number_at(data, 8, 8) as nat,
                before.tensors,
            ).1->Ok_0;
            &&& m.version == number_at(data, 4, 4)
            &&& m.tensor_count == number_at(data, 8, 8)
            &&& m.kv_count == number_at(data, 16, 8)
            &&& m.alignment == data_alignment(m.metadata)
            &&& m.alignment > 0
            &&& m.tensor_data_offset as int % m.alignment as int == 0
            &&& end >= 0 ==> end <= m.tensor_data_offset < end + m.alignment
        },
{
    files_start_with_their_counts(data);
    if scan_file(data, before).1 is Ok {
        let m = scan_file(data, before).1->Ok_0;
        let (metadata, entries_end) = scan_entries(
            data,
            24,
            number_at(data, 16, 8) as nat,
            before.metadata,
        );
        let end = scan_tensors(
            data,
            entries_end->Ok_0,
            number_at(data, 8, 8) as nat,
            before.tensors,
        ).1->Ok_0;
        let a = m.alignment as int;
        let e = end as nat as int;
        let q = (e + a - 1) / a;
        assert(q * a >= e && q * a < e + a && q >= 0 && q * a >= 0) by (nonlinear_arith)
            requires
                q == (e + a - 1) / a,
                a > 0,
                e >= 0,
        ;
        assert((q * a) % a == 0) by (nonlinear_arith)
            requires
                a > 0,
        ;
    }
}

/// A size that is stored as an integer is that integer. Nothing below zero is a size, and
/// nothing that is no integer of 32 or 64 bits.
pub proof fn stored_sizes_are_integers(v: ValueView)
    ensures
        match v {
            ValueView::U32(n) => n <= usize::MAX ==> value_as_usize(v) == Some(n as usize),
            ValueView::U64(n) => n <= usize::MAX ==> value_as_usize(v) == Some(n as usize),
            ValueView::I32(n) => {
                &&& value_as_usize(v) is Some <==> 0 <= n <= usize::MAX
                &&& value_as_usize(v) matches Some(s) ==> s == n
            },
            ValueView::I64(n) => {
                &&& value_as_usize(v) is Some <==> 0 <= n <= usize::MAX
                &&& value_as_usize(v) matches Some(s) ==> s == n
            },
            _ => value_as_usize(v) is None,
        },
{
}

/// The number that a hexadecimal digit stands for.
pub open spec fn hex_value(c: char) -> int {
    if '0' <= c <= '9' {
        c as int - '0' as int
    } else {
        c as int - 'a' as int + 10
    }
}

/// The character is a digit or one of the letters from a to f.
pub open spec fn is_hex_digit(c: char) -> bool {
    '0' <= c <= '9' || 'a' <= c <= 'f'
}

/// A byte is told by two hexadecimal digits that stand for it, the higher one first.
pub proof fn bytes_are_told_in_hexadecimal(b: u8)
    ensures
        ({
            let text = hex_list(seq![b]);
            &&& text.len() == 4
            &&& text[0] == '[' && text[3] == ']'
            &&& is_hex_digit(text[1]) && is_hex_digit(text[2])
            &&& 16 * hex_value(text[1]) + hex_value(text[2]) == b
        }),
{
    reveal_with_fuel(hex_items, 3);
    assert(seq![b].drop_last() =~= seq![]);
}

/// Bytes are told one behind the other, with commas between them.
pub proof fn bytes_are_listed(before: Seq<u8>, b: u8)
    requires
        before.len() > 0,
    ensures
        hex_list(before.push(b)) == hex_list(before).drop_last() + seq![',', ' '] + hex_list(
            seq![b],
        ).skip(1),
{
    reveal_with_fuel(hex_items, 3);
    assert(before.push(b).drop_last() =~= before);
    assert(seq![b].drop_last() =~= seq![]);
    assert(hex_list(before).drop_last() =~= hex_items(before));
    assert(hex_list(before.push(b)) =~= hex_list(before).drop_last() + seq![',', ' '] + hex_list(
        seq![b],
    ).skip(1));
}

/// Input that ends too soon is told apart from input that is wrong.
pub proof fn short_input_is_told_apart(e: GgufError)
    ensures
        e.spec_class() is UnexpectedEof <==> e is ShortRead || e is Truncated,
        e.spec_class() is Unsupported <==> e is UnsupportedArrayType,
{
}

/// A name that is not UTF-8 is refused for what is wrong with its bytes.
pub proof fn broken_names_are_refused(data: Seq<u8>, pos: int, n: int, part: FilePart)
    requires
        0 <= pos,
        data.len() <= usize::MAX,
        u64_at(data, pos) == n,
        pos + 8 + n <= data.len(),
        !valid_utf8(data.subrange(pos + 8, pos + 8 + n)),
    ensures
        scan_name(data, pos, part, part) matches Err(Fault::Refused(GgufError::InvalidUtf8(flaw)))
            && flaw == utf8_flaw(data.subrange(pos + 8, pos + 8 + n)),
        scan_text(data, pos) matches Err(Fault::Refused(GgufError::InvalidUtf8(flaw))) && flaw
            == utf8_flaw(data.subrange(pos + 8, pos + 8 + n)),
{
}

/// A name that reaches beyond the file is refused for the part that is missing.
pub proof fn missing_names_are_refused(
    data: Seq<u8>,
    pos: int,
    n: int,
    length: FilePart,
    part: FilePart,
)
    requires
        0 <= pos <= data.len(),
        pos + 8 + n <= usize::MAX,
        pos + 8 <= data.len() ==> u64_at(data, pos) == n,
        n >= 0,
    ensures
        pos + 8 > data.len() ==> scan_name(data, pos, length, part) == Err::<(Seq<char>, int), _>(
            Fault::Refused(GgufError::Truncated(length)),
        ),
        pos + 8 <= data.len() < pos + 8 + n ==> scan_name(data, pos, length, part) == Err::<
            (Seq<char>, int),
            _,
        >(Fault::Refused(GgufError::Truncated(part))),
{
}

/// A stream that ends ahead of a value is short, and leaves nothing.
pub proof fn short_streams_are_told(s: Seq<u8>, t: GgufValueType)
    ensures
        s.len() == 0 ==> stream_value(s, t) == (
            Err::<ValueView, GgufError>(GgufError::ShortRead),
            Seq::<u8>::empty(),
        ),
        s.len() < 8 && (t is U64 || t is I64 || t is F64 || t is String) ==> stream_value(s, t) == (
            Err::<ValueView, GgufError>(GgufError::ShortRead),
            Seq::<u8>::empty(),
        ),
        s.len() < 4 && (t is U32 || t is I32 || t is F32 || t is U16 || t is I16 || t is Array)
            ==> stream_value(s, t) == (
            Err::<ValueView, GgufError>(GgufError::ShortRead),
            Seq::<u8>::empty(),
        ),
        4 <= s.len() < 12 && t is Array && value_type_with(u32_at(s, 0)) is Some ==> stream_value(
            s,
            t,
        ) == (Err::<ValueView, GgufError>(GgufError::ShortRead), Seq::<u8>::empty()),
{
}

/// A file that ends ahead of a value is refused.
pub proof fn short_files_are_told(data: Seq<u8>, pos: int, t: GgufValueType)
    requires
        0 <= pos,
    ensures
        pos + 1 > data.len() ==> scan_value(data, pos, t) is Err,
        pos + 2 > data.len() && (t is U16 || t is I16) ==> scan_value(data, pos, t) is Err,
        pos + 4 > data.len() && (t is U32 || t is I32 || t is F32 || t is Array) ==> scan_value(
            data,
            pos,
            t,
        ) is Err,
        pos + 8 > data.len() && (t is U64 || t is I64 || t is F64 || t is String) ==> scan_value(
            data,
            pos,
            t,
        ) is Err,
{
}

/// What is stored under a key is found there in its own type, and in no other.
pub proof fn stored_values_are_found(
    m: Map<Seq<char>, ValueView>,
    key: Seq<char>,
    text: Seq<char>,
    bits: u32,
    number: i32,
)
    ensures
        lookup_str(m.insert(key, ValueView::String(text)), key) == Some(text),
        lookup_f32(m.insert(key, ValueView::F32(bits)), key) == Some(bits),
        lookup_i32(m.insert(key, ValueView::I32(number)), key) == Some(number),
        lookup_usize(m.insert(key, ValueView::U32(bits)), key) == Some(bits as usize),
        !m.contains_key(key) ==> lookup_str(m, key) is None && lookup_f32(m, key) is None
            && lookup_i32(m, key) is None && lookup_usize(m, key) is None,
        m.contains_key(key) && !(m[key] is String) ==> lookup_str(m, key) is None,
        m.contains_key(key) && !(m[key] is F32) ==> lookup_f32(m, key) is None,
        m.contains_key(key) && !(m[key] is I32) ==> lookup_i32(m, key) is None,
{
}

} // verus!
