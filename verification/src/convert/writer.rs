//! Writing GGUF files.

use crate::bytes::{
    put_bytes, put_text, put_u32, put_u64, text_bytes, u32_bytes, u64_bytes,
};
use crate::gguf::types::{div_ceil, GgufValueType, GGUF_MAGIC};
use crate::gguf::value::ValueView;
use crate::names::NameMap;
use crate::order::{ascending, sorted_places, text_le};
use crate::text::texts;
use vstd::prelude::*;

verus! {

/// The version of the files that are written.
pub const GGUF_VERSION: u32 = 3;

/// The alignment of tensor data in the files that are written.
pub const ALIGNMENT: usize = 32;

/// A metadata value that can be written. A floating-point number is held by its
/// bits.
#[derive(Debug)]
pub enum GgufValue {
    Bool(bool),
    U32(u32),
    I32(i32),
    F32(u32),
    String(String),
    StringVec(Vec<String>),
}

impl View for GgufValue {
    type V = ValueView;

    open spec fn view(&self) -> ValueView {
        match self {
            GgufValue::Bool(v) => ValueView::Bool(*v),
            GgufValue::U32(v) => ValueView::U32(*v),
            GgufValue::I32(v) => ValueView::I32(*v),
            GgufValue::F32(v) => ValueView::F32(*v),
            GgufValue::String(v) => ValueView::String(v@),
            GgufValue::StringVec(v) => ValueView::StringVec(texts(v@)),
        }
    }
}

/// A tensor that is ready to be written.
#[derive(Debug)]
pub struct ConvertedTensor {
    pub name: String,
    pub shape: Vec<usize>,
    pub gguf_type: u32,
    pub data: Vec<u8>,
    pub offset: u64,
}

/// A tensor that is ready to be written, with its collections as sequences.
#[verifier::ext_equal]
pub struct ConvertedView {
    pub name: Seq<char>,
    pub shape: Seq<usize>,
    pub gguf_type: u32,
    pub data: Seq<u8>,
    pub offset: u64,
}

impl View for ConvertedTensor {
    type V = ConvertedView;

    open spec fn view(&self) -> ConvertedView {
        ConvertedView {
            name: self.name@,
            shape: self.shape@,
            gguf_type: self.gguf_type,
            data: self.data@,
            offset: self.offset,
        }
    }
}

/// The views of a list of tensors.
pub open spec fn converted_views(v: Seq<ConvertedTensor>) -> Seq<ConvertedView> {
    Seq::new(v.len(), |i: int| v[i]@)
}

/// The value is of a type that is written.
pub open spec fn writable(v: ValueView) -> bool {
    v is Bool || v is U32 || v is I32 || v is F32 || v is String || v is StringVec
}

/// The type tag of a written value.
pub open spec fn value_tag(v: ValueView) -> GgufValueType {
    match v {
        ValueView::Bool(_) => GgufValueType::Bool,
        ValueView::U32(_) => GgufValueType::U32,
        ValueView::I32(_) => GgufValueType::I32,
        ValueView::F32(_) => GgufValueType::F32,
        ValueView::String(_) => GgufValueType::String,
        _ => GgufValueType::Array,
    }
}

/// Texts one behind the other.
pub open spec fn texts_bytes(ts: Seq<Seq<char>>) -> Seq<u8>
    decreases ts.len(),
{
    if ts.len() == 0 {
        seq![]
    } else {
        texts_bytes(ts.drop_last()) + text_bytes(ts.last())
    }
}

/// A value behind its tag.
pub open spec fn value_body(v: ValueView) -> Seq<u8> {
    match v {
        ValueView::Bool(b) => seq![
            if b {
                1u8
            } else {
                0u8
            },
        ],
        ValueView::U32(x) => u32_bytes(x),
        ValueView::I32(x) => u32_bytes(x as u32),
        ValueView::F32(x) => u32_bytes(x),
        ValueView::String(t) => text_bytes(t),
        ValueView::StringVec(ts) => u32_bytes(8) + u64_bytes(ts.len() as u64) + texts_bytes(ts),
        _ => seq![],
    }
}

/// A value: its tag and its body.
pub open spec fn value_bytes(v: ValueView) -> Seq<u8> {
    u32_bytes(value_tag(v).spec_id()) + value_body(v)
}

/// A metadata entry.
pub open spec fn entry_bytes(k: Seq<char>, v: ValueView) -> Seq<u8> {
    text_bytes(k) + value_bytes(v)
}

/// The metadata entries of the given keys.
pub open spec fn entries_bytes(order: Seq<Seq<char>>, m: Map<Seq<char>, ValueView>) -> Seq<u8>
    decreases order.len(),
{
    if order.len() == 0 {
        seq![]
    } else {
        entries_bytes(order.drop_last(), m) + entry_bytes(order.last(), m[order.last()])
    }
}

/// The dimensions of a shape.
pub open spec fn shape_bytes(shape: Seq<usize>) -> Seq<u8>
    decreases shape.len(),
{
    if shape.len() == 0 {
        seq![]
    } else {
        shape_bytes(shape.drop_last()) + u64_bytes(shape.last() as u64)
    }
}

/// A tensor description.
pub open spec fn tensor_bytes(t: ConvertedView) -> Seq<u8> {
    text_bytes(t.name) + u32_bytes(t.shape.len() as u32) + shape_bytes(t.shape) + u32_bytes(
        t.gguf_type,
    ) + u64_bytes(t.offset)
}

/// The tensor descriptions.
pub open spec fn table_bytes(ts: Seq<ConvertedView>) -> Seq<u8>
    decreases ts.len(),
{
    if ts.len() == 0 {
        seq![]
    } else {
        table_bytes(ts.drop_last()) + tensor_bytes(ts.last())
    }
}

/// `n` zero bytes.
pub open spec fn zeros(n: nat) -> Seq<u8> {
    Seq::new(n, |i: int| 0u8)
}

/// How many bytes are missing to the next multiple of the alignment.
pub open spec fn missing(len: nat, alignment: nat) -> nat {
    ((alignment - len % alignment) % alignment as int) as nat
}

/// Bytes filled up with zeros to a multiple of the alignment.
pub open spec fn padded(s: Seq<u8>) -> Seq<u8> {
    s + zeros(missing(s.len(), ALIGNMENT as nat))
}

/// The part of a file ahead of its tensor data.
pub open spec fn head_bytes(
    order: Seq<Seq<char>>,
    m: Map<Seq<char>, ValueView>,
    ts: Seq<ConvertedView>,
) -> Seq<u8> {
    u32_bytes(GGUF_MAGIC) + u32_bytes(GGUF_VERSION) + u64_bytes(ts.len() as u64) + u64_bytes(
        order.len() as u64,
    ) + entries_bytes(order, m) + table_bytes(ts)
}

/// A head with tensor data behind it, each tensor filled up.
pub open spec fn with_data(head: Seq<u8>, ts: Seq<ConvertedView>) -> Seq<u8>
    decreases ts.len(),
{
    if ts.len() == 0 {
        padded(head)
    } else {
        padded(with_data(head, ts.drop_last()) + ts.last().data)
    }
}

/// A whole file.
pub open spec fn file_bytes(
    order: Seq<Seq<char>>,
    m: Map<Seq<char>, ValueView>,
    ts: Seq<ConvertedView>,
) -> Seq<u8> {
    with_data(head_bytes(order, m, ts), ts)
}

/// Keys in strictly ascending order, all keys of the map.
pub open spec fn key_order(order: Seq<Seq<char>>, m: Map<Seq<char>, ValueView>) -> bool {
    &&& order.no_duplicates()
    &&& forall|k: Seq<char>| #[trigger] order.contains(k) <==> m.contains_key(k)
    &&& forall|i: int, j: int|
        #![trigger order[i], order[j]]
        0 <= i < j < order.len() ==> text_le(order[i], order[j])
}

/// Appends a value with its tag.
pub fn write_value(out: &mut Vec<u8>, value: &GgufValue)
    ensures
        final(out)@ == old(out)@ + value_bytes(value@),
{
    match value {
        GgufValue::Bool(v) => {
            put_u32(out, 7);
            out.push(
                if *v {
                    1
                } else {
                    0
                },
            );
        },
        GgufValue::U32(v) => {
            put_u32(out, 4);
            put_u32(out, *v);
        },
        GgufValue::I32(v) => {
            put_u32(out, 5);
            put_u32(out, *v as u32);
        },
        GgufValue::F32(v) => {
            put_u32(out, 6);
            put_u32(out, *v);
        },
        GgufValue::String(v) => {
            put_u32(out, 8);
            put_text(out, v.as_str());
        },
        GgufValue::StringVec(v) => {
            put_u32(out, 9);
            put_u32(out, 8);
            put_u64(out, v.len() as u64);
            let ghost start = out@;
            let ghost ts = texts(v@);
            let mut i: usize = 0;
            assert(out@ =~= start + texts_bytes(ts.take(0)));
            while i < v.len()
                invariant
                    i <= v@.len(),
                    ts == texts(v@),
                    out@ == start + texts_bytes(ts.take(i as int)),
                decreases v@.len() - i,
            {
                put_text(out, v[i].as_str());
                assert(ts.take(i + 1).drop_last() =~= ts.take(i as int));
                i += 1;
                assert(out@ =~= start + texts_bytes(ts.take(i as int)));
            }
            assert(ts.take(i as int) =~= ts);
        },
    }
    assert(out@ =~= old(out)@ + value_bytes(value@));
}

/// Appends zeros up to a multiple of the alignment.
pub fn pad_to_alignment(out: &mut Vec<u8>, alignment: usize)
    requires
        alignment > 0,
    ensures
        final(out)@ == old(out)@ + zeros(missing(old(out)@.len(), alignment as nat)),
{
    let padding: usize = (alignment - out.len() % alignment) % alignment;
    let mut i: usize = 0;
    assert(out@ =~= old(out)@ + zeros(0));
    while i < padding
        invariant
            i <= padding,
            out@ == old(out)@ + zeros(i as nat),
        decreases padding - i,
    {
        out.push(0);
        i += 1;
        assert(out@ =~= old(out)@ + zeros(i as nat));
    }
}

/// The next multiple of an alignment.
pub fn align(value: usize, alignment: usize) -> (r: usize)
    requires
        alignment > 0,
        div_ceil(value as nat, alignment as nat) * alignment <= usize::MAX,
    ensures
        r == div_ceil(value as nat, alignment as nat) * alignment,
{
    crate::gguf::types::blocks_for(value, alignment) * alignment
}

fn put_tensor(out: &mut Vec<u8>, t: &ConvertedTensor)
    ensures
        final(out)@ == old(out)@ + tensor_bytes(t@),
{
    put_text(out, t.name.as_str());
    put_u32(out, t.shape.len() as u32);
    let ghost start = out@;
    let mut i: usize = 0;
    assert(out@ =~= start + shape_bytes(t.shape@.take(0)));
    while i < t.shape.len()
        invariant
            i <= t.shape@.len(),
            out@ == start + shape_bytes(t.shape@.take(i as int)),
        decreases t.shape@.len() - i,
    {
        put_u64(out, t.shape[i] as u64);
        assert(t.shape@.take(i + 1).drop_last() =~= t.shape@.take(i as int));
        i += 1;
        assert(out@ =~= start + shape_bytes(t.shape@.take(i as int)));
    }
    assert(t.shape@.take(i as int) =~= t.shape@);
    put_u32(out, t.gguf_type);
    put_u64(out, t.offset);
    assert(out@ =~= old(out)@ + tensor_bytes(t@));
}

fn put_table(out: &mut Vec<u8>, tensors: &Vec<ConvertedTensor>)
    ensures
        final(out)@ == old(out)@ + table_bytes(converted_views(tensors@)),
{
    let ghost ts = converted_views(tensors@);
    let mut i: usize = 0;
    assert(out@ =~= old(out)@ + table_bytes(ts.take(0)));
    while i < tensors.len()
        invariant
            i <= tensors@.len(),
            ts == converted_views(tensors@),
            out@ == old(out)@ + table_bytes(ts.take(i as int)),
        decreases tensors@.len() - i,
    {
        put_tensor(out, &tensors[i]);
        assert(ts.take(i + 1).drop_last() =~= ts.take(i as int));
        i += 1;
        assert(out@ =~= old(out)@ + table_bytes(ts.take(i as int)));
    }
    assert(ts.take(i as int) =~= ts);
}

fn put_data(out: &mut Vec<u8>, tensors: &Vec<ConvertedTensor>)
    ensures
        final(out)@ == with_data(old(out)@, converted_views(tensors@)),
{
    let ghost ts = converted_views(tensors@);
    pad_to_alignment(out, ALIGNMENT);
    let mut i: usize = 0;
    assert(ts.take(0).len() == 0);
    while i < tensors.len()
        invariant
            i <= tensors@.len(),
            ts == converted_views(tensors@),
            out@ == with_data(old(out)@, ts.take(i as int)),
        decreases tensors@.len() - i,
    {
        put_bytes(out, tensors[i].data.as_slice());
        pad_to_alignment(out, ALIGNMENT);
        assert(ts.take(i + 1).drop_last() =~= ts.take(i as int));
        i += 1;
    }
    assert(ts.take(i as int) =~= ts);
}

/// The keys of a map in ascending order, with their places in the map.
fn ordered_places(metadata: &NameMap<GgufValue>) -> (r: Vec<usize>)
    ensures
        r@.len() == metadata.names().len(),
        ascending(metadata.names(), r@),
{
    let mut keys: Vec<String> = Vec::new();
    let mut i: usize = 0;
    while i < metadata.len()
        invariant
            i <= metadata.names().len(),
            texts(keys@) == metadata.names().take(i as int),
        decreases metadata.names().len() - i,
    {
        let ghost before = texts(keys@);
        let key = metadata.name_at(i).clone();
        keys.push(key);
        assert(texts(keys@) =~= before.push(key@));
        i += 1;
        assert(texts(keys@) =~= metadata.names().take(i as int));
    }
    assert(metadata.names().take(i as int) =~= metadata.names());
    sorted_places(&keys)
}

/// The keys at given places.
pub open spec fn keys_at(names: Seq<Seq<char>>, places: Seq<usize>) -> Seq<Seq<char>> {
    Seq::new(places.len(), |i: int| names[places[i] as int])
}

/// As many different places as there are names are all the places.
proof fn lemma_all_places(names: Seq<Seq<char>>, places: Seq<usize>)
    requires
        places.len() == names.len(),
        ascending(names, places),
    ensures
        forall|p: int| 0 <= p < names.len() ==> #[trigger] places.contains(p as usize),
{
    let n = names.len();
    let seen = places.to_set();
    let all = vstd::set_lib::set_int_range(0, n as int);
    vstd::set_lib::lemma_int_range(0, n as int);
    places.unique_seq_to_set();
    let ints = places.map_values(|p: usize| p as int);
    assert(ints.no_duplicates()) by {
        assert forall|i: int, j: int|
            0 <= i < ints.len() && 0 <= j < ints.len() && i != j implies ints[i] != ints[j] by {
            assert(places[i] != places[j]);
        }
    }
    ints.unique_seq_to_set();
    assert(ints.to_set().subset_of(all)) by {
        assert forall|x: int| ints.to_set().contains(x) implies all.contains(x) by {
            let i = choose|i: int| 0 <= i < ints.len() && ints[i] == x;
            assert(places[i] < names.len());
        }
    }
    vstd::set_lib::lemma_subset_equality(ints.to_set(), all);
    assert forall|p: int| 0 <= p < n implies #[trigger] places.contains(p as usize) by {
        assert(all.contains(p));
        let i = choose|i: int| 0 <= i < ints.len() && ints[i] == p;
        assert(places[i] == p as usize);
    }
}

/// Writes a file: header, metadata in ascending order of its keys, tensor
/// descriptions and tensor data.
pub fn write_gguf(metadata: &NameMap<GgufValue>, tensors: &Vec<ConvertedTensor>) -> (r: Vec<u8>)
    ensures
        exists|order: Seq<Seq<char>>|
            #![trigger key_order(order, metadata@)]
            key_order(order, metadata@) && r@ == file_bytes(
                order,
                metadata@,
                converted_views(tensors@),
            ),
{
    let mut out: Vec<u8> = Vec::new();
    put_u32(&mut out, GGUF_MAGIC);
    put_u32(&mut out, GGUF_VERSION);
    put_u64(&mut out, tensors.len() as u64);
    put_u64(&mut out, metadata.len() as u64);
    let ghost start = out@;
    let places = ordered_places(metadata);
    let ghost order = keys_at(metadata.names(), places@);
    let mut i: usize = 0;
    assert(out@ =~= start + entries_bytes(order.take(0), metadata@));
    while i < places.len()
        invariant
            i <= places@.len(),
            places@.len() == metadata.names().len(),
            ascending(metadata.names(), places@),
            order == keys_at(metadata.names(), places@),
            out@ == start + entries_bytes(order.take(i as int), metadata@),
        decreases places@.len() - i,
    {
        let at: usize = places[i];
        put_text(&mut out, metadata.name_at(at).as_str());
        write_value(&mut out, metadata.value_at(at));
        assert(order.take(i + 1).drop_last() =~= order.take(i as int));
        assert(order.take(i + 1).last() == order[i as int]);
        i += 1;
        assert(out@ =~= start + entries_bytes(order.take(i as int), metadata@));
    }
    assert(order.take(i as int) =~= order);
    put_table(&mut out, tensors);
    proof {
        lemma_all_places(metadata.names(), places@);
        assert forall|k: Seq<char>| #[trigger] order.contains(k) <==> metadata@.contains_key(k) by {
            if order.contains(k) {
                let i = order.index_of(k);
                assert(metadata.names().contains(metadata.names()[places@[i] as int]));
            }
            if metadata@.contains_key(k) {
                assert(metadata.names().contains(k));
                let p = metadata.names().index_of(k);
                assert(places@.contains(p as usize));
                let i = places@.index_of(p as usize);
                assert(order[i] == k);
            }
        }
        assert(order.no_duplicates()) by {
            assert forall|i: int, j: int|
                0 <= i < order.len() && 0 <= j < order.len() && i != j implies order[i]
                != order[j] by {
                assert(places@[i] != places@[j]);
            }
        }
        assert(key_order(order, metadata@));
        assert(out@ =~= head_bytes(order, metadata@, converted_views(tensors@)));
    }
    put_data(&mut out, tensors);
    out
}

} // verus!
