//! Files that are written can be read.
//!
//! The laws here relate [`crate::convert::writer::write_gguf`] to
//! [`crate::gguf::reader::GgufReader::parse_from_bytes`] and
//! [`crate::gguf::reader::GgufReader::parse`].

use crate::bytes::{
    text_at, text_bytes, u32_at, u32_bytes, u32_round_trip, u64_at, u64_bytes, u64_round_trip,
};
use crate::convert::writer::{
    entries_bytes, entry_bytes, file_bytes, head_bytes, key_order, missing, padded, shape_bytes,
    table_bytes, tensor_bytes, texts_bytes, value_body, value_bytes, value_tag, with_data,
    writable, zeros, ConvertedView, ALIGNMENT, GGUF_VERSION,
};
use crate::gguf::error::{FilePart, GgufError};
use crate::gguf::laws::{as_streamed, common_entries, streams_read_alike};
use crate::gguf::metadata::{MetadataView, TensorView};
use crate::gguf::reader::{empty_reader, stream_file};
use crate::gguf::scan::{
    data_alignment, scan_entries, scan_entry, scan_file, scan_header, scan_name, scan_tensor,
    scan_tensors, scan_text, scan_texts, scan_value, u64s_at, Fault,
};
use crate::gguf::types::{
    data_type_with, div_ceil, value_type_id_round_trip, GgufValueType, GGUF_MAGIC,
};
use crate::gguf::value::ValueView;
use vstd::prelude::*;
use vstd::utf8::{encode_utf8, encode_utf8_decode_utf8, encode_utf8_valid_utf8};

verus! {

/// `part` stands in `data` at `pos`.
pub open spec fn has_at(data: Seq<u8>, pos: int, part: Seq<u8>) -> bool {
    &&& 0 <= pos
    &&& pos + part.len() <= data.len()
    &&& data.subrange(pos, pos + part.len()) == part
}

proof fn lemma_split(data: Seq<u8>, pos: int, a: Seq<u8>, b: Seq<u8>)
    requires
        has_at(data, pos, a + b),
    ensures
        has_at(data, pos, a),
        has_at(data, pos + a.len(), b),
{
    let whole = data.subrange(pos, pos + (a + b).len());
    assert(data.subrange(pos, pos + a.len()) =~= whole.subrange(0, a.len() as int));
    assert((a + b).subrange(0, a.len() as int) =~= a);
    assert(data.subrange(pos + a.len(), pos + a.len() + b.len()) =~= whole.subrange(
        a.len() as int,
        (a + b).len() as int,
    ));
    assert((a + b).subrange(a.len() as int, (a + b).len() as int) =~= b);
}

proof fn lemma_around(data: Seq<u8>, pos: int, part: Seq<u8>)
    requires
        has_at(data, pos, part),
    ensures
        data == data.take(pos) + part + data.skip(pos + part.len()),
{
    assert(data =~= data.take(pos) + data.subrange(pos, pos + part.len()) + data.skip(
        pos + part.len(),
    ));
}

proof fn lemma_u32(data: Seq<u8>, pos: int, v: u32)
    requires
        has_at(data, pos, u32_bytes(v)),
    ensures
        u32_at(data, pos) == v,
{
    lemma_around(data, pos, u32_bytes(v));
    u32_round_trip(data.take(pos), v, data.skip(pos + 4));
}

proof fn lemma_u64(data: Seq<u8>, pos: int, v: u64)
    requires
        has_at(data, pos, u64_bytes(v)),
    ensures
        u64_at(data, pos) == v,
{
    lemma_around(data, pos, u64_bytes(v));
    u64_round_trip(data.take(pos), v, data.skip(pos + 8));
}

/// A written text is read: its length, and its characters behind it.
proof fn lemma_text(data: Seq<u8>, pos: int, t: Seq<char>)
    requires
        has_at(data, pos, text_bytes(t)),
        data.len() <= usize::MAX,
    ensures
        u64_at(data, pos) as usize == encode_utf8(t).len(),
        text_at(data, pos + 8, pos + 8 + encode_utf8(t).len()) == Some(t),
        text_bytes(t).len() == 8 + encode_utf8(t).len(),
{
    let n = encode_utf8(t).len();
    lemma_split(data, pos, u64_bytes(n as u64), encode_utf8(t));
    lemma_u64(data, pos, n as u64);
    encode_utf8_valid_utf8(t);
    encode_utf8_decode_utf8(t);
}

proof fn lemma_scan_text(data: Seq<u8>, pos: int, t: Seq<char>)
    requires
        has_at(data, pos, text_bytes(t)),
        data.len() <= usize::MAX,
    ensures
        scan_text(data, pos) == Ok::<(Seq<char>, int), Fault>((t, encode_utf8(t).len() as int)),
        text_bytes(t).len() == 8 + encode_utf8(t).len(),
{
    lemma_text(data, pos, t);
}

proof fn lemma_scan_name(data: Seq<u8>, pos: int, t: Seq<char>, a: FilePart, b: FilePart)
    requires
        has_at(data, pos, text_bytes(t)),
        data.len() <= usize::MAX,
    ensures
        scan_name(data, pos, a, b) == Ok::<(Seq<char>, int), Fault>(
            (t, pos + text_bytes(t).len()),
        ),
{
    lemma_text(data, pos, t);
}

/// Texts front to back: the first, and the rest.
proof fn lemma_texts_front(ts: Seq<Seq<char>>)
    requires
        ts.len() > 0,
    ensures
        texts_bytes(ts) == text_bytes(ts[0]) + texts_bytes(ts.skip(1)),
    decreases ts.len(),
{
    if ts.len() == 1 {
        assert(ts.drop_last() =~= seq![]);
        assert(ts.skip(1) =~= seq![]);
        assert(texts_bytes(ts) =~= text_bytes(ts[0]) + texts_bytes(ts.skip(1)));
    } else {
        lemma_texts_front(ts.drop_last());
        assert(ts.drop_last().skip(1) =~= ts.skip(1).drop_last());
        assert(texts_bytes(ts) =~= text_bytes(ts[0]) + texts_bytes(ts.skip(1)));
    }
}

proof fn lemma_scan_texts(data: Seq<u8>, pos: int, ts: Seq<Seq<char>>, before: Seq<Seq<char>>)
    requires
        has_at(data, pos, texts_bytes(ts)),
        data.len() <= usize::MAX,
    ensures
        scan_texts(data, pos, ts.len(), before) == Ok::<(Seq<Seq<char>>, int), Fault>(
            (before + ts, pos + texts_bytes(ts).len()),
        ),
    decreases ts.len(),
{
    if ts.len() == 0 {
        assert(before + ts =~= before);
    } else {
        lemma_texts_front(ts);
        lemma_split(data, pos, text_bytes(ts[0]), texts_bytes(ts.skip(1)));
        lemma_scan_text(data, pos, ts[0]);
        lemma_scan_texts(data, pos + text_bytes(ts[0]).len(), ts.skip(1), before.push(ts[0]));
        assert(before.push(ts[0]) + ts.skip(1) =~= before + ts);
    }
}

proof fn lemma_texts_len(ts: Seq<Seq<char>>)
    ensures
        texts_bytes(ts).len() >= 8 * ts.len(),
    decreases ts.len(),
{
    if ts.len() > 0 {
        lemma_texts_len(ts.drop_last());
    }
}

/// A written value is read.
proof fn lemma_scan_value(data: Seq<u8>, pos: int, v: ValueView)
    requires
        writable(v),
        has_at(data, pos, value_body(v)),
        data.len() <= usize::MAX,
    ensures
        scan_value(data, pos, value_tag(v)) == Ok::<(ValueView, int), Fault>(
            (v, value_body(v).len() as int),
        ),
{
    match v {
        ValueView::Bool(b) => {
            assert(data[pos] == data.subrange(pos, pos + 1)[0]);
        },
        ValueView::U32(x) => {
            lemma_u32(data, pos, x);
        },
        ValueView::I32(x) => {
            lemma_u32(data, pos, x as u32);
            assert((x as u32) as i32 == x) by (bit_vector);
        },
        ValueView::F32(x) => {
            lemma_u32(data, pos, x);
        },
        ValueView::String(t) => {
            lemma_scan_text(data, pos, t);
        },
        ValueView::StringVec(ts) => {
            let n = ts.len();
            lemma_texts_len(ts);
            let head = u32_bytes(8) + u64_bytes(n as u64);
            lemma_split(data, pos, head, texts_bytes(ts));
            lemma_split(data, pos, u32_bytes(8), u64_bytes(n as u64));
            lemma_u32(data, pos, 8);
            lemma_u64(data, pos + 4, n as u64);
            value_type_id_round_trip(GgufValueType::String);
            lemma_scan_texts(data, pos + 12, ts, seq![]);
            assert(Seq::<Seq<char>>::empty() + ts =~= ts);
        },
        _ => {},
    }
}

/// A written entry is read.
proof fn lemma_scan_entry(data: Seq<u8>, pos: int, k: Seq<char>, v: ValueView)
    requires
        writable(v),
        has_at(data, pos, entry_bytes(k, v)),
        data.len() <= usize::MAX,
    ensures
        scan_entry(data, pos) == Ok::<(Seq<char>, ValueView, int), Fault>(
            (k, v, pos + entry_bytes(k, v).len()),
        ),
{
    lemma_split(data, pos, text_bytes(k), value_bytes(v));
    let p = pos + text_bytes(k).len();
    lemma_split(data, p, u32_bytes(value_tag(v).spec_id()), value_body(v));
    lemma_scan_name(data, pos, k, FilePart::KeyLength, FilePart::Key);
    lemma_u32(data, p, value_tag(v).spec_id());
    value_type_id_round_trip(value_tag(v));
    lemma_scan_value(data, p + 4, v);
}

proof fn lemma_entries_front(order: Seq<Seq<char>>, m: Map<Seq<char>, ValueView>)
    requires
        order.len() > 0,
    ensures
        entries_bytes(order, m) == entry_bytes(order[0], m[order[0]]) + entries_bytes(
            order.skip(1),
            m,
        ),
    decreases order.len(),
{
    if order.len() == 1 {
        assert(order.drop_last() =~= seq![]);
        assert(order.skip(1) =~= seq![]);
        assert(entries_bytes(order, m) =~= entry_bytes(order[0], m[order[0]]) + entries_bytes(
            order.skip(1),
            m,
        ));
    } else {
        lemma_entries_front(order.drop_last(), m);
        assert(order.drop_last().skip(1) =~= order.skip(1).drop_last());
        assert(entries_bytes(order, m) =~= entry_bytes(order[0], m[order[0]]) + entries_bytes(
            order.skip(1),
            m,
        ));
    }
}

/// What entries of a map leave of the map once they are read.
pub open spec fn with_entries(
    before: Map<Seq<char>, ValueView>,
    order: Seq<Seq<char>>,
    m: Map<Seq<char>, ValueView>,
) -> Map<Seq<char>, ValueView> {
    Map::new(
        |k: Seq<char>| before.contains_key(k) || order.contains(k),
        |k: Seq<char>|
            if order.contains(k) {
                m[k]
            } else {
                before[k]
            },
    )
}

proof fn lemma_scan_entries(
    data: Seq<u8>,
    pos: int,
    order: Seq<Seq<char>>,
    m: Map<Seq<char>, ValueView>,
    before: Map<Seq<char>, ValueView>,
)
    requires
        has_at(data, pos, entries_bytes(order, m)),
        forall|i: int| 0 <= i < order.len() ==> writable(m[#[trigger] order[i]]),
        data.len() <= usize::MAX,
    ensures
        scan_entries(data, pos, order.len(), before) == (
            with_entries(before, order, m),
            Ok::<int, Fault>(pos + entries_bytes(order, m).len()),
        ),
    decreases order.len(),
{
    if order.len() == 0 {
        assert(with_entries(before, order, m) =~= before);
    } else {
        let (k, rest) = (order[0], order.skip(1));
        lemma_entries_front(order, m);
        lemma_split(data, pos, entry_bytes(k, m[k]), entries_bytes(rest, m));
        lemma_scan_entry(data, pos, k, m[k]);
        let after = before.insert(k, m[k]);
        assert forall|i: int| 0 <= i < rest.len() implies writable(m[#[trigger] rest[i]]) by {
            assert(rest[i] == order[i + 1]);
        }
        lemma_scan_entries(data, pos + entry_bytes(k, m[k]).len(), rest, m, after);
        assert forall|q: Seq<char>| order.contains(q) <==> q == k || rest.contains(q) by {
            if order.contains(q) && q != k {
                let i = order.index_of(q);
                assert(rest[i - 1] == q);
            }
            if rest.contains(q) {
                let i = rest.index_of(q);
                assert(order[i + 1] == q);
            }
            if q == k {
                assert(order[0] == q);
            }
        }
        assert(with_entries(after, rest, m) =~= with_entries(before, order, m));
    }
}

/// The description that is read of a written tensor.
pub open spec fn tensor_read(t: ConvertedView) -> TensorView {
    TensorView {
        name: t.name,
        n_dims: t.shape.len() as u32,
        shape: Seq::new(t.shape.len(), |i: int| t.shape[i] as u64),
        data_type: data_type_with(t.gguf_type)->0,
        offset: t.offset,
        stride: Seq::new(t.shape.len(), |i: int| 1usize),
    }
}

proof fn lemma_shape(data: Seq<u8>, pos: int, shape: Seq<usize>, i: int)
    requires
        has_at(data, pos, shape_bytes(shape)),
    ensures
        shape_bytes(shape).len() == 8 * shape.len(),
        0 <= i < shape.len() ==> u64_at(data, pos + 8 * i) == shape[i] as u64,
    decreases shape.len(),
{
    if shape.len() > 0 {
        let init = shape.drop_last();
        lemma_split(data, pos, shape_bytes(init), u64_bytes(shape.last() as u64));
        lemma_shape(data, pos, init, i);
        lemma_u64(data, pos + 8 * init.len(), shape.last() as u64);
    }
}

/// The tensor can be described in a file.
pub open spec fn describable(t: ConvertedView) -> bool {
    t.shape.len() <= u32::MAX && data_type_with(t.gguf_type) is Some
}

/// A written tensor description is read.
proof fn lemma_scan_tensor(data: Seq<u8>, pos: int, t: ConvertedView)
    requires
        has_at(data, pos, tensor_bytes(t)),
        describable(t),
        data.len() <= usize::MAX,
    ensures
        scan_tensor(data, pos) == Ok::<(TensorView, int), Fault>(
            (tensor_read(t), pos + tensor_bytes(t).len()),
        ),
{
    let a = text_bytes(t.name);
    let b = u32_bytes(t.shape.len() as u32);
    let c = shape_bytes(t.shape);
    let d = u32_bytes(t.gguf_type);
    let e = u64_bytes(t.offset);
    lemma_split(data, pos, a + b + c + d, e);
    lemma_split(data, pos, a + b + c, d);
    lemma_split(data, pos, a + b, c);
    lemma_split(data, pos, a, b);
    let p = pos + a.len();
    lemma_scan_name(data, pos, t.name, FilePart::TensorNameLength, FilePart::TensorName);
    lemma_u32(data, p, t.shape.len() as u32);
    lemma_shape(data, p + 4, t.shape, 0);
    let q = p + 4 + 8 * t.shape.len();
    lemma_u32(data, q, t.gguf_type);
    lemma_u64(data, q + 4, t.offset);
    let dims = u64s_at(data, p + 4, t.shape.len());
    assert forall|i: int| 0 <= i < t.shape.len() implies dims[i] == t.shape[i] as u64 by {
        lemma_shape(data, p + 4, t.shape, i);
    }
    assert(dims =~= tensor_read(t).shape);
    assert(Seq::new(t.shape.len(), |i: int| 1usize) =~= tensor_read(t).stride);
}

proof fn lemma_table_front(ts: Seq<ConvertedView>)
    requires
        ts.len() > 0,
    ensures
        table_bytes(ts) == tensor_bytes(ts[0]) + table_bytes(ts.skip(1)),
    decreases ts.len(),
{
    if ts.len() == 1 {
        assert(ts.drop_last() =~= seq![]);
        assert(ts.skip(1) =~= seq![]);
        assert(table_bytes(ts) =~= tensor_bytes(ts[0]) + table_bytes(ts.skip(1)));
    } else {
        lemma_table_front(ts.drop_last());
        assert(ts.drop_last().skip(1) =~= ts.skip(1).drop_last());
        assert(table_bytes(ts) =~= tensor_bytes(ts[0]) + table_bytes(ts.skip(1)));
    }
}

/// The descriptions that are read of written tensors.
pub open spec fn tensors_read(ts: Seq<ConvertedView>) -> Seq<TensorView> {
    Seq::new(ts.len(), |i: int| tensor_read(ts[i]))
}

proof fn lemma_scan_tensors(
    data: Seq<u8>,
    pos: int,
    ts: Seq<ConvertedView>,
    before: Seq<TensorView>,
)
    requires
        has_at(data, pos, table_bytes(ts)),
        forall|i: int| 0 <= i < ts.len() ==> describable(#[trigger] ts[i]),
        data.len() <= usize::MAX,
    ensures
        scan_tensors(data, pos, ts.len(), before) == (
            before + tensors_read(ts),
            Ok::<int, Fault>(pos + table_bytes(ts).len()),
        ),
    decreases ts.len(),
{
    if ts.len() == 0 {
        assert(before + tensors_read(ts) =~= before);
    } else {
        let rest = ts.skip(1);
        lemma_table_front(ts);
        lemma_split(data, pos, tensor_bytes(ts[0]), table_bytes(rest));
        assert(describable(ts[0]));
        lemma_scan_tensor(data, pos, ts[0]);
        let after = before.push(tensor_read(ts[0]));
        assert forall|i: int| 0 <= i < rest.len() implies describable(#[trigger] rest[i]) by {
            assert(rest[i] == ts[i + 1]);
        }
        lemma_scan_tensors(data, pos + tensor_bytes(ts[0]).len(), rest, after);
        assert(after + tensors_read(rest) =~= before + tensors_read(ts));
    }
}

proof fn lemma_with_data(head: Seq<u8>, ts: Seq<ConvertedView>)
    ensures
        has_at(with_data(head, ts), 0, padded(head)),
    decreases ts.len(),
{
    if ts.len() == 0 {
        assert(padded(head).subrange(0, padded(head).len() as int) =~= padded(head));
    } else {
        lemma_with_data(head, ts.drop_last());
        let inner = with_data(head, ts.drop_last());
        let whole = with_data(head, ts);
        assert(whole =~= inner + (ts.last().data + zeros(
            missing((inner + ts.last().data).len(), ALIGNMENT as nat),
        )));
        assert(whole.subrange(0, padded(head).len() as int) =~= inner.subrange(
            0,
            padded(head).len() as int,
        ));
    }
}

/// The length of filled-up bytes is the next multiple of the alignment.
proof fn lemma_padded_len(s: Seq<u8>)
    ensures
        padded(s).len() == div_ceil(s.len(), 32) * 32,
        padded(s).len() % 32 == 0,
{
}

/// What a written file says once it is read.
pub open spec fn file_read(
    order: Seq<Seq<char>>,
    m: Map<Seq<char>, ValueView>,
    ts: Seq<ConvertedView>,
) -> MetadataView {
    MetadataView {
        version: GGUF_VERSION,
        tensor_count: ts.len() as u64,
        kv_count: order.len() as u64,
        alignment: ALIGNMENT,
        tensor_data_offset: padded(head_bytes(order, m, ts)).len() as u64,
        metadata: m,
        tensors: tensors_read(ts),
    }
}

proof fn lemma_entries_len(order: Seq<Seq<char>>, m: Map<Seq<char>, ValueView>)
    ensures
        entries_bytes(order, m).len() >= order.len(),
    decreases order.len(),
{
    if order.len() > 0 {
        lemma_entries_len(order.drop_last(), m);
    }
}

proof fn lemma_table_len(ts: Seq<ConvertedView>)
    ensures
        table_bytes(ts).len() >= ts.len(),
    decreases ts.len(),
{
    if ts.len() > 0 {
        lemma_table_len(ts.drop_last());
    }
}

proof fn lemma_head(
    data: Seq<u8>,
    order: Seq<Seq<char>>,
    m: Map<Seq<char>, ValueView>,
    ts: Seq<ConvertedView>,
)
    requires
        has_at(data, 0, head_bytes(order, m, ts)),
        data.len() <= usize::MAX,
    ensures
        scan_header(data) == Ok::<(u32, u64, u64), Fault>(
            (GGUF_VERSION, ts.len() as u64, order.len() as u64),
        ),
        has_at(data, 24, entries_bytes(order, m)),
        has_at(data, 24 + entries_bytes(order, m).len() as int, table_bytes(ts)),
        head_bytes(order, m, ts).len() == 24 + entries_bytes(order, m).len() + table_bytes(
            ts,
        ).len(),
        ts.len() <= u64::MAX,
        order.len() <= u64::MAX,
{
    let a = u32_bytes(GGUF_MAGIC);
    let b = u32_bytes(GGUF_VERSION);
    let c = u64_bytes(ts.len() as u64);
    let d = u64_bytes(order.len() as u64);
    let e = entries_bytes(order, m);
    let f = table_bytes(ts);
    lemma_entries_len(order, m);
    lemma_table_len(ts);
    lemma_split(data, 0, a + b + c + d + e, f);
    lemma_split(data, 0, a + b + c + d, e);
    lemma_split(data, 0, a + b + c, d);
    lemma_split(data, 0, a + b, c);
    lemma_split(data, 0, a, b);
    lemma_u32(data, 0, GGUF_MAGIC);
    lemma_u32(data, 4, GGUF_VERSION);
    lemma_u64(data, 8, ts.len() as u64);
    lemma_u64(data, 16, order.len() as u64);
}

/// A file that was written is read back: the same metadata, a description of every
/// tensor, and the place where the tensor data starts.
pub proof fn written_file_reads_back(
    order: Seq<Seq<char>>,
    m: Map<Seq<char>, ValueView>,
    ts: Seq<ConvertedView>,
)
    requires
        key_order(order, m),
        forall|k: Seq<char>| #[trigger] m.contains_key(k) ==> writable(m[k]),
        data_alignment(m) == ALIGNMENT,
        forall|i: int| 0 <= i < ts.len() ==> describable(#[trigger] ts[i]),
        file_bytes(order, m, ts).len() <= usize::MAX,
    ensures
        scan_file(file_bytes(order, m, ts), empty_reader()).1 == Ok::<MetadataView, Fault>(
            file_read(order, m, ts),
        ),
{
    let data = file_bytes(order, m, ts);
    let head = head_bytes(order, m, ts);
    let none = empty_reader();
    lemma_with_data(head, ts);
    lemma_split(data, 0, head, zeros(missing(head.len(), ALIGNMENT as nat)));
    lemma_head(data, order, m, ts);
    assert forall|i: int| 0 <= i < order.len() implies writable(m[#[trigger] order[i]]) by {
        assert(order.contains(order[i]));
    }
    let p = 24 + entries_bytes(order, m).len() as int;
    lemma_scan_entries(data, 24, order, m, none.metadata);
    assert(with_entries(none.metadata, order, m) =~= m);
    lemma_scan_tensors(data, p, ts, none.tensors);
    assert(none.tensors + tensors_read(ts) =~= tensors_read(ts));
    lemma_padded_len(head);
}

/// The entries of a written file are such as are read alike from memory and as a stream.
proof fn lemma_common_entries(
    data: Seq<u8>,
    pos: int,
    order: Seq<Seq<char>>,
    m: Map<Seq<char>, ValueView>,
)
    requires
        has_at(data, pos, entries_bytes(order, m)),
        forall|i: int| 0 <= i < order.len() ==> writable(m[#[trigger] order[i]]),
        data.len() <= usize::MAX,
    ensures
        common_entries(data, pos, order.len()),
    decreases order.len(),
{
    if order.len() > 0 {
        let (k, rest) = (order[0], order.skip(1));
        let v = m[k];
        lemma_entries_front(order, m);
        lemma_split(data, pos, entry_bytes(k, v), entries_bytes(rest, m));
        lemma_scan_entry(data, pos, k, v);
        lemma_split(data, pos, text_bytes(k), value_bytes(v));
        let p = pos + text_bytes(k).len();
        lemma_split(data, p, u32_bytes(value_tag(v).spec_id()), value_body(v));
        lemma_scan_name(data, pos, k, FilePart::KeyLength, FilePart::Key);
        lemma_u32(data, p, value_tag(v).spec_id());
        value_type_id_round_trip(value_tag(v));
        if let ValueView::StringVec(ts) = v {
            let head = u32_bytes(8) + u64_bytes(ts.len() as u64);
            lemma_split(data, p + 4, head, texts_bytes(ts));
            lemma_split(data, p + 4, u32_bytes(8), u64_bytes(ts.len() as u64));
            lemma_u32(data, p + 4, 8);
            value_type_id_round_trip(GgufValueType::String);
        }
        assert forall|i: int| 0 <= i < rest.len() implies writable(m[#[trigger] rest[i]]) by {
            assert(rest[i] == order[i + 1]);
        }
        lemma_common_entries(data, pos + entry_bytes(k, v).len(), rest, m);
    }
}

/// A file that was written is read back as a stream too: the same metadata, and a
/// description of every tensor.
pub proof fn written_file_streams_back(
    order: Seq<Seq<char>>,
    m: Map<Seq<char>, ValueView>,
    ts: Seq<ConvertedView>,
)
    requires
        key_order(order, m),
        forall|k: Seq<char>| #[trigger] m.contains_key(k) ==> writable(m[k]),
        data_alignment(m) == ALIGNMENT,
        forall|i: int| 0 <= i < ts.len() ==> describable(#[trigger] ts[i]),
        file_bytes(order, m, ts).len() <= usize::MAX,
    ensures
        stream_file(file_bytes(order, m, ts), empty_reader()).1 == Ok::<MetadataView, GgufError>(
            as_streamed(file_read(order, m, ts)),
        ),
{
    let data = file_bytes(order, m, ts);
    let head = head_bytes(order, m, ts);
    written_file_reads_back(order, m, ts);
    lemma_with_data(head, ts);
    lemma_split(data, 0, head, zeros(missing(head.len(), ALIGNMENT as nat)));
    lemma_head(data, order, m, ts);
    assert forall|i: int| 0 <= i < order.len() implies writable(m[#[trigger] order[i]]) by {
        assert(order.contains(order[i]));
    }
    lemma_common_entries(data, 24, order, m);
    streams_read_alike(data, empty_reader());
}

/// Where tensor `k` of a list starts when each is filled up to the alignment.
pub open spec fn data_start(ts: Seq<ConvertedView>, k: int) -> int
    decreases k,
{
    if k <= 0 {
        0
    } else {
        data_start(ts, k - 1) + div_ceil(ts[k - 1].data.len(), ALIGNMENT as nat) * ALIGNMENT
    }
}

/// Behind aligned bytes, others are filled up as they are on their own.
proof fn lemma_aligned_sum(a: nat, b: nat)
    requires
        a % 32 == 0,
    ensures
        div_ceil(a + b, 32) * 32 == a + div_ceil(b, 32) * 32,
{
}

proof fn lemma_data_start(head: Seq<u8>, ts: Seq<ConvertedView>)
    ensures
        with_data(head, ts).len() == padded(head).len() + data_start(ts, ts.len() as int),
        with_data(head, ts).len() % 32 == 0,
    decreases ts.len(),
{
    if ts.len() == 0 {
        lemma_padded_len(head);
    } else {
        let init = ts.drop_last();
        lemma_data_start(head, init);
        lemma_start_prefix(ts, init, init.len() as int);
        let before = with_data(head, init);
        let inner = before + ts.last().data;
        assert(with_data(head, ts) == padded(inner));
        lemma_padded_len(inner);
        lemma_aligned_sum(before.len(), ts.last().data.len());
    }
}

proof fn lemma_start_prefix(a: Seq<ConvertedView>, b: Seq<ConvertedView>, k: int)
    requires
        0 <= k <= a.len(),
        k <= b.len(),
        forall|i: int| 0 <= i < k ==> a[i] == b[i],
    ensures
        data_start(a, k) == data_start(b, k),
    decreases k,
{
    if k > 0 {
        lemma_start_prefix(a, b, k - 1);
    }
}

/// The data of every tensor stands in a written file at the start of the tensor
/// data plus the space that the tensors ahead of it take.
pub proof fn tensor_data_reads_back(head: Seq<u8>, ts: Seq<ConvertedView>, k: int)
    requires
        0 <= k < ts.len(),
    ensures
        has_at(with_data(head, ts), padded(head).len() + data_start(ts, k), ts[k].data),
    decreases ts.len(),
{
    let init = ts.drop_last();
    let inner = with_data(head, init);
    let whole = with_data(head, ts);
    let tail = zeros(missing((inner + ts.last().data).len(), ALIGNMENT as nat));
    assert(whole =~= inner + ts.last().data + tail);
    lemma_data_start(head, init);
    if k == ts.len() - 1 {
        lemma_start_prefix(ts, init, k);
        let p = inner.len() as int;
        assert(whole.subrange(p, p + ts[k].data.len()) =~= ts[k].data);
    } else {
        tensor_data_reads_back(head, init, k);
        lemma_start_prefix(ts, init, k);
        let p = padded(head).len() + data_start(ts, k);
        assert(whole.subrange(p, p + ts[k].data.len()) =~= inner.subrange(
            p,
            p + ts[k].data.len(),
        ));
    }
}

} // verus!
