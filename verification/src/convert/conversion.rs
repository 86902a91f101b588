//! Collecting the tensors of a converted model, and checking the file.

use crate::convert::error::{ConvertError, ConvertErrorView};
use crate::convert::names::{canonical, canonical_tensor_name};
use crate::convert::readback::{
    data_start, file_read, has_at, tensor_data_reads_back, tensors_read,
};
use crate::convert::writer::{
    align, converted_views, file_bytes, head_bytes, padded, ConvertedTensor, ConvertedView,
    ALIGNMENT, GGUF_VERSION,
};
use crate::gguf::metadata::{
    shape_fits, shape_product, tensor_views, MetadataView, ModelMetadata, TensorView,
};
use crate::gguf::types::div_ceil;
use crate::gguf::value::ValueView;
use crate::mlx::header::{elements, elements_fit, TensorMeta};
use crate::text::str_eq;
use vstd::prelude::*;

verus! {

/// The tensors stand one behind the other, each at the next multiple of the alignment,
/// and no two have the same name.
pub open spec fn placed(ts: Seq<ConvertedView>, end: u64) -> bool {
    &&& end == data_start(ts, ts.len() as int)
    &&& forall|k: int| 0 <= k < ts.len() ==> (#[trigger] ts[k]).offset == data_start(ts, k)
    &&& forall|j: int, k: int|
        0 <= j < k < ts.len() ==> (#[trigger] ts[j]).name != (#[trigger] ts[k]).name
}

/// One of the tensors has the name.
pub open spec fn has_name(ts: Seq<ConvertedView>, name: Seq<char>) -> bool {
    exists|k: int| 0 <= k < ts.len() && (#[trigger] ts[k]).name == name
}

/// The bytes of data filled up to the alignment.
pub open spec fn aligned(len: nat) -> nat {
    div_ceil(len, ALIGNMENT as nat) * (ALIGNMENT as nat)
}

/// What becomes of a tensor: its loaded values must be as many as its shape says, its
/// new name must be free, and its quantized values must be as many again.
pub open spec fn added(
    ts: Seq<ConvertedView>,
    end: u64,
    name: Seq<char>,
    shape: Seq<usize>,
    loaded: usize,
    data: Seq<u8>,
    reconstructed: usize,
    gguf_type: u32,
) -> Result<Seq<ConvertedView>, ConvertErrorView> {
    if loaded != elements(shape) {
        Err(
            ConvertErrorView::ShapeMismatch {
                name,
                expected: elements(shape) as usize,
                got: loaded,
            },
        )
    } else if has_name(ts, canonical(name)) {
        Err(ConvertErrorView::Collision { name, canonical: canonical(name) })
    } else if reconstructed != loaded {
        Err(ConvertErrorView::RoundTrip { name, got: reconstructed, expected: loaded })
    } else {
        Ok(
            ts.push(
                ConvertedView { name: canonical(name), shape, gguf_type, data, offset: end },
            ),
        )
    }
}

/// The tensors that were converted so far.
#[derive(Debug)]
pub struct Conversion {
    tensors: Vec<ConvertedTensor>,
    offset: u64,
}

impl View for Conversion {
    type V = Seq<ConvertedView>;

    closed spec fn view(&self) -> Seq<ConvertedView> {
        converted_views(self.tensors@)
    }
}

impl Conversion {
    /// Where the data of the next tensor starts.
    pub closed spec fn end(&self) -> u64 {
        self.offset
    }

    pub fn new() -> (r: Self)
        ensures
            r@ == Seq::<ConvertedView>::empty(),
            r.end() == 0,
            placed(r@, r.end()),
    {
        let r = Conversion { tensors: Vec::new(), offset: 0 };
        assert(r@ =~= Seq::empty());
        r
    }

    fn is_taken(&self, name: &str) -> (r: bool)
        ensures
            r == has_name(self@, name@),
    {
        let mut i: usize = 0;
        while i < self.tensors.len()
            invariant
                i <= self.tensors@.len(),
                forall|k: int| 0 <= k < i ==> (#[trigger] self@[k]).name != name@,
            decreases self.tensors@.len() - i,
        {
            assert(self@[i as int] == self.tensors@[i as int]@);
            if str_eq(self.tensors[i].name.as_str(), name) {
                return true;
            }
            i += 1;
        }
        false
    }

    /// Adds a tensor: its description, how many values were loaded, the quantized
    /// values, and how many values they stand for.
    pub fn add_tensor(
        &mut self,
        name: &str,
        meta: &TensorMeta,
        loaded: usize,
        data: Vec<u8>,
        reconstructed: usize,
        gguf_type: u32,
    ) -> (r: Result<(), ConvertError>)
        requires
            placed(old(self)@, old(self).end()),
            elements_fit(meta.shape@),
            aligned(data@.len()) <= usize::MAX,
            old(self).end() + aligned(data@.len()) <= u64::MAX,
        ensures
            placed(final(self)@, final(self).end()),
            match (
                r,
                added(
                    old(self)@,
                    old(self).end(),
                    name@,
                    meta.shape@,
                    loaded,
                    data@,
                    reconstructed,
                    gguf_type,
                ),
            ) {
                (Ok(_), Ok(ts)) => final(self)@ == ts && final(self).end() == old(self).end()
                    + aligned(data@.len()),
                (Err(e), Err(expected)) => e@ == expected && final(self)@ == old(self)@
                    && final(self).end() == old(self).end(),
                _ => false,
            },
    {
        let expected: usize = meta.num_elements();
        if loaded != expected {
            return Err(
                ConvertError::ShapeMismatch { name: name.to_string(), expected, got: loaded },
            );
        }
        let new_name = canonical_tensor_name(name);
        if self.is_taken(new_name.as_str()) {
            return Err(ConvertError::Collision { name: name.to_string(), canonical: new_name });
        }
        if reconstructed != loaded {
            return Err(
                ConvertError::RoundTrip {
                    name: name.to_string(),
                    got: reconstructed,
                    expected: loaded,
                },
            );
        }
        let size: usize = align(data.len(), ALIGNMENT);
        let ghost before = self@;
        let copy = meta.clone();
        let tensor = ConvertedTensor {
            name: new_name,
            shape: copy.shape,
            gguf_type,
            data,
            offset: self.offset,
        };
        let ghost t = tensor@;
        self.tensors.push(tensor);
        self.offset = self.offset + size as u64;
        proof {
            assert(self@ =~= before.push(t));
            lemma_placed(before, t, old(self).end());
        }
        Ok(())
    }

    /// The tensors.
    pub fn tensors(&self) -> (r: &Vec<ConvertedTensor>)
        ensures
            converted_views(r@) == self@,
    {
        &self.tensors
    }
}

proof fn lemma_start_same(a: Seq<ConvertedView>, b: Seq<ConvertedView>, k: int)
    requires
        0 <= k <= a.len(),
        k <= b.len(),
        forall|i: int| 0 <= i < k ==> a[i] == b[i],
    ensures
        data_start(a, k) == data_start(b, k),
    decreases k,
{
    if k > 0 {
        lemma_start_same(a, b, k - 1);
    }
}

proof fn lemma_placed(ts: Seq<ConvertedView>, t: ConvertedView, end: u64)
    requires
        placed(ts, end),
        t.offset == end,
        !has_name(ts, t.name),
        end + aligned(t.data.len()) <= u64::MAX,
    ensures
        placed(ts.push(t), (end + aligned(t.data.len())) as u64),
{
    let grown = ts.push(t);
    lemma_start_same(ts, grown, ts.len() as int);
    assert forall|k: int| 0 <= k < grown.len() implies (#[trigger] grown[k]).offset == data_start(
        grown,
        k,
    ) by {
        lemma_start_same(ts, grown, k);
        if k < ts.len() {
            assert(ts[k].offset == data_start(ts, k));
        }
    }
}

/// The data of every converted tensor stands in the written file where the file's own
/// tensor table says that it stands.
pub proof fn converted_data_reads_back(
    order: Seq<Seq<char>>,
    m: Map<Seq<char>, ValueView>,
    ts: Seq<ConvertedView>,
    end: u64,
    k: int,
)
    requires
        placed(ts, end),
        0 <= k < ts.len(),
    ensures
        has_at(
            file_bytes(order, m, ts),
            padded(head_bytes(order, m, ts)).len() + tensors_read(ts)[k].offset,
            ts[k].data,
        ),
{
    tensor_data_reads_back(head_bytes(order, m, ts), ts, k);
    assert(ts[k].offset == data_start(ts, k));
}

/// The tensor has no dimensions, or no elements.
pub open spec fn is_empty(t: TensorView) -> bool {
    t.shape.len() == 0 || shape_product(t.shape) == 0
}

/// The first tensor, from place `i` on, without elements.
pub open spec fn first_empty(ts: Seq<TensorView>, i: int) -> Option<int>
    decreases ts.len() - i,
{
    if i < 0 || i >= ts.len() {
        None
    } else if is_empty(ts[i]) {
        Some(i)
    } else {
        first_empty(ts, i + 1)
    }
}

/// What is found wrong with a written file, if anything is.
pub open spec fn validated(m: MetadataView, expected: usize) -> Result<(), ConvertErrorView> {
    if m.version != GGUF_VERSION {
        Err(ConvertErrorView::Version { version: m.version, wanted: GGUF_VERSION })
    } else if m.tensors.len() != expected || m.tensor_count as usize != expected {
        Err(
            ConvertErrorView::TensorCount {
                table: m.tensors.len() as usize,
                header: m.tensor_count,
                expected,
            },
        )
    } else {
        match first_empty(m.tensors, 0) {
            Some(i) => Err(ConvertErrorView::EmptyShape(m.tensors[i].name)),
            None => Ok(()),
        }
    }
}

/// Checks a file that was written: its version, the number of its tensors, and that
/// each has elements.
pub fn validate_written_gguf(metadata: &ModelMetadata, expected_tensors: usize) -> (r: Result<
    (),
    ConvertError,
>)
    requires
        forall|i: int|
            0 <= i < metadata.tensors@.len() ==> shape_fits((#[trigger] metadata.tensors@[i]).shape@),
    ensures
        match (r, validated(metadata@, expected_tensors)) {
            (Ok(_), Ok(_)) => true,
            (Err(e), Err(expected)) => e@ == expected,
            _ => false,
        },
{
    if metadata.version != GGUF_VERSION {
        return Err(ConvertError::Version { version: metadata.version, wanted: GGUF_VERSION });
    }
    let ghost all = metadata@.tensors;
    assert(all.len() == metadata.tensors@.len());
    if metadata.tensors.len() != expected_tensors || metadata.tensor_count as usize
        != expected_tensors {
        return Err(
            ConvertError::TensorCount {
                table: metadata.tensors.len(),
                header: metadata.tensor_count,
                expected: expected_tensors,
            },
        );
    }
    let mut i: usize = 0;
    while i < metadata.tensors.len()
        invariant
            i <= metadata.tensors@.len(),
            all == tensor_views(metadata.tensors@),
            all == metadata@.tensors,
            metadata.version == GGUF_VERSION,
            metadata.tensors@.len() == expected_tensors,
            metadata.tensor_count as usize == expected_tensors,
            forall|i: int|
                0 <= i < metadata.tensors@.len() ==> shape_fits(
                    (#[trigger] metadata.tensors@[i]).shape@,
                ),
            first_empty(all, 0) == first_empty(all, i as int),
        decreases metadata.tensors@.len() - i,
    {
        assert(all[i as int] == metadata.tensors@[i as int]@);
        let tensor = &metadata.tensors[i];
        if tensor.shape.len() == 0 || tensor.num_elements() == 0 {
            return Err(ConvertError::EmptyShape(tensor.name.clone()));
        }
        i += 1;
    }
    Ok(())
}

proof fn lemma_none_empty(ts: Seq<TensorView>, i: int)
    requires
        0 <= i,
        forall|k: int| 0 <= k < ts.len() ==> !is_empty(#[trigger] ts[k]),
    ensures
        first_empty(ts, i) is None,
    decreases ts.len() - i,
{
    if i < ts.len() {
        lemma_none_empty(ts, i + 1);
    }
}

/// A file that was written passes its check, once it is read, where every tensor has
/// elements.
pub proof fn written_file_validates(
    order: Seq<Seq<char>>,
    m: Map<Seq<char>, ValueView>,
    ts: Seq<ConvertedView>,
)
    requires
        ts.len() <= usize::MAX,
        forall|k: int| 0 <= k < ts.len() ==> !is_empty(#[trigger] tensors_read(ts)[k]),
    ensures
        validated(file_read(order, m, ts), ts.len() as usize) is Ok,
{
    lemma_none_empty(tensors_read(ts), 0);
}

} // verus!
