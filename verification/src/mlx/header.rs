//! The header of a safetensors file.

use crate::bytes::{copy_range, get_u64, string_from_utf8, u64_at};
use crate::json::{entry_trees, parse_json, parsed_json, trees, Json, JsonTree};
use crate::mlx::error::{FaultView, HeaderFault, MlxError, MlxErrorView};
use crate::names::NameMap;
use crate::order::{
    sort_texts, sorted_texts, sorted_texts_ascend_strictly, strictly_ascend,
};
use crate::text::{str_eq, texts};
use vstd::prelude::*;

verus! {

/// Where a tensor is and what it holds.
#[derive(Debug)]
pub struct TensorMeta {
    pub dtype: String,
    pub shape: Vec<usize>,
    pub data_offset: u64,
    pub data_size: usize,
}

/// A tensor's description with its name and shape as sequences.
#[verifier::ext_equal]
pub struct MetaView {
    pub dtype: Seq<char>,
    pub shape: Seq<usize>,
    pub data_offset: u64,
    pub data_size: usize,
}

impl View for TensorMeta {
    type V = MetaView;

    open spec fn view(&self) -> MetaView {
        MetaView {
            dtype: self.dtype@,
            shape: self.shape@,
            data_offset: self.data_offset,
            data_size: self.data_size,
        }
    }
}

impl Clone for TensorMeta {
    fn clone(&self) -> (r: Self)
        ensures
            r@ == self@,
    {
        let mut shape: Vec<usize> = Vec::new();
        let mut i: usize = 0;
        while i < self.shape.len()
            invariant
                i <= self.shape@.len(),
                shape@ == self.shape@.take(i as int),
            decreases self.shape@.len() - i,
        {
            shape.push(self.shape[i]);
            i += 1;
            assert(shape@ =~= self.shape@.take(i as int));
        }
        assert(shape@ =~= self.shape@);
        TensorMeta {
            dtype: self.dtype.clone(),
            shape,
            data_offset: self.data_offset,
            data_size: self.data_size,
        }
    }
}

/// The product of a shape's dimensions.
pub open spec fn elements(shape: Seq<usize>) -> nat
    decreases shape.len(),
{
    if shape.len() == 0 {
        1
    } else {
        elements(shape.drop_last()) * (shape.last() as nat)
    }
}

/// No product of leading dimensions is too large.
pub open spec fn elements_fit(shape: Seq<usize>) -> bool {
    forall|n: int| 0 <= n <= shape.len() ==> #[trigger] elements(shape.take(n)) <= usize::MAX
}

/// The bytes of one element. Of an unknown type it is taken to be four.
pub open spec fn dtype_size(dtype: Seq<char>) -> nat {
    if dtype == "F32"@ {
        4
    } else if dtype == "F16"@ || dtype == "BF16"@ {
        2
    } else if dtype == "I64"@ {
        8
    } else if dtype == "I32"@ {
        4
    } else if dtype == "I16"@ {
        2
    } else if dtype == "I8"@ || dtype == "U8"@ {
        1
    } else {
        4
    }
}

impl TensorMeta {
    pub fn num_elements(&self) -> (r: usize)
        requires
            elements_fit(self.shape@),
        ensures
            r == elements(self.shape@),
    {
        let mut product: usize = 1;
        let mut i: usize = 0;
        assert(elements(self.shape@.take(0)) == 1);
        while i < self.shape.len()
            invariant
                i <= self.shape@.len(),
                elements_fit(self.shape@),
                product == elements(self.shape@.take(i as int)),
            decreases self.shape@.len() - i,
        {
            assert(self.shape@.take(i + 1).drop_last() =~= self.shape@.take(i as int));
            assert(elements(self.shape@.take(i + 1)) <= usize::MAX);
            product = product * self.shape[i];
            i += 1;
        }
        assert(self.shape@.take(i as int) =~= self.shape@);
        product
    }

    /// The bytes of one element.
    pub fn elem_size(&self) -> (r: usize)
        ensures
            r == dtype_size(self.dtype@),
    {
        let dtype = self.dtype.as_str();
        if str_eq(dtype, "F32") {
            4
        } else if str_eq(dtype, "F16") || str_eq(dtype, "BF16") {
            2
        } else if str_eq(dtype, "I64") {
            8
        } else if str_eq(dtype, "I32") {
            4
        } else if str_eq(dtype, "I16") {
            2
        } else if str_eq(dtype, "I8") || str_eq(dtype, "U8") {
            1
        } else {
            4
        }
    }

    /// The bytes that the shape and the type make.
    pub fn data_size(&self) -> (r: usize)
        requires
            elements_fit(self.shape@),
            elements(self.shape@) * dtype_size(self.dtype@) <= usize::MAX,
        ensures
            r == elements(self.shape@) * dtype_size(self.dtype@),
    {
        self.num_elements() * self.elem_size()
    }
}

/// What a file says ahead of its tensors.
#[derive(Debug)]
pub struct SafeTensorsHeader {
    /// The names of the tensors, in ascending order.
    pub tensor_names: Vec<String>,
    pub tensors: NameMap<TensorMeta>,
    /// The bytes ahead of the tensors.
    pub header_size: u64,
}

/// A header with its collections as mathematical values.
#[verifier::ext_equal]
pub struct HeaderView {
    pub tensor_names: Seq<Seq<char>>,
    pub tensors: Map<Seq<char>, MetaView>,
    pub header_size: u64,
}

impl View for SafeTensorsHeader {
    type V = HeaderView;

    open spec fn view(&self) -> HeaderView {
        HeaderView {
            tensor_names: texts(self.tensor_names@),
            tensors: self.tensors@,
            header_size: self.header_size,
        }
    }
}

/// The result holds the value, or the fault, of an outcome.
pub open spec fn same_outcome<T: View, E: View>(r: Result<T, E>, expected: Result<T::V, E::V>) -> bool {
    match (r, expected) {
        (Ok(v), Ok(e)) => v@ == e,
        (Err(f), Err(e)) => f@ == e,
        _ => false,
    }
}

/// Every item is a number that is not negative.
pub open spec fn all_unsigned(items: Seq<JsonTree>) -> bool {
    forall|i: int| 0 <= i < items.len() ==> (#[trigger] items[i]).as_u64() is Some
}

/// The shape that a list of numbers gives.
pub open spec fn shape_of(items: Seq<JsonTree>) -> Seq<usize> {
    Seq::new(items.len(), |i: int| items[i].as_u64()->0 as usize)
}

/// What is made of the entry of a tensor, in a file whose data starts at `base`.
pub open spec fn meta_of(name: Seq<char>, entry: JsonTree, base: u64) -> Result<MetaView, FaultView> {
    match entry.str_of("dtype"@) {
        None => Err(FaultView::Refused(MlxErrorView::MissingDtype(name))),
        Some(dtype) => match entry.list_of("shape"@) {
            None => Err(FaultView::Refused(MlxErrorView::MissingShape(name))),
            Some(shape) => if !all_unsigned(shape) {
                Err(FaultView::Refused(MlxErrorView::InvalidShape(name)))
            } else {
                match entry.list_of("data_offsets"@) {
                    None => Err(FaultView::Refused(MlxErrorView::MissingOffsets(name))),
                    Some(offsets) => if offsets.len() != 2 {
                        Err(FaultView::Refused(MlxErrorView::InvalidOffsets(name)))
                    } else if offsets[0].as_u64() is None {
                        Err(FaultView::Refused(MlxErrorView::InvalidStart(name)))
                    } else if offsets[1].as_u64() is None {
                        Err(FaultView::Refused(MlxErrorView::InvalidEnd(name)))
                    } else {
                        let start = offsets[0].as_u64()->0;
                        let end = offsets[1].as_u64()->0;
                        if end < start || base + start > u64::MAX {
                            Err(FaultView::Overrun)
                        } else {
                            Ok(
                                MetaView {
                                    dtype,
                                    shape: shape_of(shape),
                                    data_offset: (base + start) as u64,
                                    data_size: ((end - start) as u64) as usize,
                                },
                            )
                        }
                    },
                }
            },
        },
    }
}

/// The names of an object's entries.
pub open spec fn entry_names(entries: Seq<(Seq<char>, JsonTree)>) -> Seq<Seq<char>> {
    Seq::new(entries.len(), |i: int| entries[i].0)
}

/// What is made of the tensors with the given names, from place `i` on, behind those
/// that were read before. The first fault ends it; the entry for other data is passed
/// over.
pub open spec fn header_from(
    names: Seq<Seq<char>>,
    tree: JsonTree,
    base: u64,
    i: int,
    before: HeaderView,
) -> Result<HeaderView, FaultView>
    decreases names.len() - i,
{
    if i < 0 || i >= names.len() {
        Ok(before)
    } else if names[i] == "__metadata__"@ {
        header_from(names, tree, base, i + 1, before)
    } else {
        match meta_of(
            names[i],
            match tree.get(names[i]) {
                Some(entry) => entry,
                None => JsonTree::Null,
            },
            base,
        ) {
            Err(fault) => Err(fault),
            Ok(meta) => header_from(
                names,
                tree,
                base,
                i + 1,
                HeaderView {
                    tensor_names: before.tensor_names.push(names[i]),
                    tensors: before.tensors.insert(names[i], meta),
                    ..before
                },
            ),
        }
    }
}

/// What is made of a header of that many bytes that was parsed: the tensors are taken
/// in the order of their names.
pub open spec fn header_of(tree: JsonTree, header_size: u64) -> Result<HeaderView, FaultView> {
    match tree.as_entries() {
        None => Err(FaultView::Refused(MlxErrorView::NotJson)),
        Some(entries) => header_from(
            sorted_texts(entry_names(entries)),
            tree,
            (8 + header_size) as u64,
            0,
            HeaderView {
                tensor_names: seq![],
                tensors: Map::empty(),
                header_size: (8 + header_size) as u64,
            },
        ),
    }
}

/// The largest header that is read.
pub const MAX_HEADER_SIZE: u64 = 100_000_000;

/// What is made of the bytes of a file. They need to go no further than the header.
pub open spec fn file_header(bytes: Seq<u8>) -> Result<HeaderView, FaultView> {
    if bytes.len() < 8 {
        Err(FaultView::Refused(MlxErrorView::ShortSize))
    } else {
        let size = u64_at(bytes, 0);
        if size == 0 || size > MAX_HEADER_SIZE {
            Err(FaultView::Refused(MlxErrorView::HeaderSize(size)))
        } else if bytes.len() < 8 + size {
            Err(FaultView::Refused(MlxErrorView::ShortHeader))
        } else {
            let header = bytes.subrange(8, 8 + size);
            if !vstd::utf8::valid_utf8(header) {
                Err(FaultView::Refused(MlxErrorView::NotUtf8))
            } else {
                match parsed_json(header) {
                    None => Err(FaultView::Refused(MlxErrorView::NotJson)),
                    Some(tree) => header_of(tree, size),
                }
            }
        }
    }
}

/// Reads a shape.
fn read_shape(items: &Vec<Json>) -> (r: Option<Vec<usize>>)
    ensures
        r is Some <==> all_unsigned(trees(items@)),
        r matches Some(shape) ==> shape@ == shape_of(trees(items@)),
{
    let ghost all = trees(items@);
    let mut shape: Vec<usize> = Vec::new();
    let mut i: usize = 0;
    while i < items.len()
        invariant
            i <= items@.len(),
            all == trees(items@),
            forall|j: int| 0 <= j < i ==> (#[trigger] all[j]).as_u64() is Some,
            shape@ == shape_of(all).take(i as int),
        decreases items@.len() - i,
    {
        assert(all[i as int] == items@[i as int].tree());
        match items[i].as_u64() {
            Some(n) => {
                shape.push(#[verifier::truncate] (n as usize));
            },
            None => {
                return None;
            },
        }
        i += 1;
        assert(shape@ =~= shape_of(all).take(i as int));
    }
    assert(shape@ =~= shape_of(all));
    Some(shape)
}

/// Reads the entry of a tensor.
fn read_meta(name: &str, entry: &Json, base: u64) -> (r: Result<TensorMeta, HeaderFault>)
    ensures
        same_outcome(r, meta_of(name@, entry.tree(), base)),
{
    let dtype = match entry.str_of("dtype") {
        Some(s) => s.to_string(),
        None => {
            return Err(HeaderFault::Refused(MlxError::MissingDtype(name.to_string())));
        },
    };
    let shape = match entry.list_of("shape") {
        Some(items) => match read_shape(items) {
            Some(shape) => shape,
            None => {
                return Err(HeaderFault::Refused(MlxError::InvalidShape(name.to_string())));
            },
        },
        None => {
            return Err(HeaderFault::Refused(MlxError::MissingShape(name.to_string())));
        },
    };
    let offsets = match entry.list_of("data_offsets") {
        Some(items) => items,
        None => {
            return Err(HeaderFault::Refused(MlxError::MissingOffsets(name.to_string())));
        },
    };
    if offsets.len() != 2 {
        return Err(HeaderFault::Refused(MlxError::InvalidOffsets(name.to_string())));
    }
    assert(trees(offsets@)[0] == offsets@[0].tree() && trees(offsets@)[1] == offsets@[1].tree());
    let start: u64 = match offsets[0].as_u64() {
        Some(n) => n,
        None => {
            return Err(HeaderFault::Refused(MlxError::InvalidStart(name.to_string())));
        },
    };
    let end: u64 = match offsets[1].as_u64() {
        Some(n) => n,
        None => {
            return Err(HeaderFault::Refused(MlxError::InvalidEnd(name.to_string())));
        },
    };
    if end < start || start > u64::MAX - base {
        return Err(HeaderFault::Overrun);
    }
    Ok(
        TensorMeta {
            dtype,
            shape,
            data_offset: base + start,
            data_size: #[verifier::truncate] ((end - start) as usize),
        },
    )
}

/// Makes a header of a parsed document, for a header of that many bytes.
pub fn read_header(json: &Json, header_size: u64) -> (r: Result<SafeTensorsHeader, HeaderFault>)
    requires
        header_size <= MAX_HEADER_SIZE,
    ensures
        same_outcome(r, header_of(json.tree(), header_size)),
{
    let entries = match json.as_entries() {
        Some(entries) => entries,
        None => {
            return Err(HeaderFault::Refused(MlxError::NotJson));
        },
    };
    let base: u64 = 8 + header_size;
    let ghost tree = json.tree();
    let mut names: Vec<String> = Vec::new();
    let ghost all_names = entry_names(entry_trees(entries@));
    let mut k: usize = 0;
    while k < entries.len()
        invariant
            k <= entries@.len(),
            all_names == entry_names(entry_trees(entries@)),
            texts(names@) == all_names.take(k as int),
        decreases entries@.len() - k,
    {
        let ghost before = texts(names@);
        let name = entries[k].0.clone();
        names.push(name);
        assert(texts(names@) =~= before.push(name@));
        k += 1;
        assert(texts(names@) =~= all_names.take(k as int));
    }
    assert(texts(names@) =~= all_names);
    let names = sort_texts(names);
    let ghost order = sorted_texts(all_names);
    let mut header = SafeTensorsHeader {
        tensor_names: Vec::new(),
        tensors: NameMap::new(),
        header_size: base,
    };
    let mut i: usize = 0;
    let ghost start = HeaderView {
        tensor_names: seq![],
        tensors: Map::empty(),
        header_size: base,
    };
    assert(header@ =~= start);
    while i < names.len()
        invariant
            i <= names@.len(),
            texts(names@) == order,
            tree == json.tree(),
            header_of(tree, header_size) == header_from(order, tree, base, i as int, header@),
        decreases names@.len() - i,
    {
        assert(order[i as int] == names@[i as int]@);
        let name = names[i].as_str();
        if !str_eq(name, "__metadata__") {
            let missing = Json::Null;
            let entry = match json.get(name) {
                Some(entry) => entry,
                None => &missing,
            };
            match read_meta(name, entry, base) {
                Ok(meta) => {
                    let ghost before = header@;
                    let ghost m = meta@;
                    header.tensors.insert(name.to_string(), meta);
                    header.tensor_names.push(name.to_string());
                    assert(texts(header.tensor_names@) =~= before.tensor_names.push(name@));
                    assert(header@ =~= (HeaderView {
                        tensor_names: before.tensor_names.push(name@),
                        tensors: before.tensors.insert(name@, m),
                        ..before
                    }));
                },
                Err(fault) => {
                    return Err(fault);
                },
            }
        }
        i += 1;
    }
    Ok(header)
}

/// Reads the header of a file from its first bytes. They need to go no further than
/// the header. The names of the tensors ascend, and each is there once.
pub fn parse_safetensors_header(bytes: &[u8]) -> (r: Result<SafeTensorsHeader, HeaderFault>)
    ensures
        same_outcome(r, file_header(bytes@)),
        r matches Ok(h) ==> names_known(h@) && strictly_ascend(h@.tensor_names),
{
    if bytes.len() < 8 {
        return Err(HeaderFault::Refused(MlxError::ShortSize));
    }
    let size: u64 = get_u64(bytes, 0);
    if size == 0 || size > MAX_HEADER_SIZE {
        return Err(HeaderFault::Refused(MlxError::HeaderSize(size)));
    }
    if ((bytes.len() - 8) as u64) < size {
        return Err(HeaderFault::Refused(MlxError::ShortHeader));
    }
    let end: usize = 8 + size as usize;
    let header = copy_range(bytes, 8, end);
    if string_from_utf8(header.clone()).is_err() {
        return Err(HeaderFault::Refused(MlxError::NotUtf8));
    }
    match parse_json(header.as_slice()) {
        Some(json) => {
            proof {
                header_names_its_tensors(json.tree(), size);
                tensors_are_listed_once(json.tree(), size);
            }
            read_header(&json, size)
        },
        None => Err(HeaderFault::Refused(MlxError::NotJson)),
    }
}

/// The names, shapes and types of the tensors, in the order of the names.
pub open spec fn listed(h: HeaderView) -> Seq<(Seq<char>, Seq<usize>, Seq<char>)> {
    Seq::new(
        h.tensor_names.len(),
        |i: int|
            (
                h.tensor_names[i],
                h.tensors[h.tensor_names[i]].shape,
                h.tensors[h.tensor_names[i]].dtype,
            ),
    )
}

/// The views of a list of names, shapes and types.
pub open spec fn listing(v: Seq<(String, Vec<usize>, String)>) -> Seq<
    (Seq<char>, Seq<usize>, Seq<char>),
> {
    Seq::new(v.len(), |i: int| (v[i].0@, v[i].1@, v[i].2@))
}

/// Every name in the list is that of a tensor.
pub open spec fn names_known(h: HeaderView) -> bool {
    forall|i: int|
        0 <= i < h.tensor_names.len() ==> h.tensors.contains_key(#[trigger] h.tensor_names[i])
}

/// The names, shapes and types of the tensors.
pub fn list_tensors(header: &SafeTensorsHeader) -> (r: Vec<(String, Vec<usize>, String)>)
    requires
        names_known(header@),
    ensures
        listing(r@) == listed(header@),
        r@.len() == header.tensor_names@.len(),
{
    let mut out: Vec<(String, Vec<usize>, String)> = Vec::new();
    let ghost all = listed(header@);
    let mut i: usize = 0;
    while i < header.tensor_names.len()
        invariant
            i <= header.tensor_names@.len(),
            names_known(header@),
            all == listed(header@),
            listing(out@) == all.take(i as int),
        decreases header.tensor_names@.len() - i,
    {
        let name = &header.tensor_names[i];
        assert(header@.tensor_names[i as int] == name@);
        match header.tensors.get(name.as_str()) {
            Some(meta) => {
                let copy = meta.clone();
                let ghost before = listing(out@);
                let item = (name.clone(), copy.shape, copy.dtype);
                out.push(item);
                assert(listing(out@) =~= before.push(all[i as int]));
            },
            None => {},
        }
        i += 1;
        assert(listing(out@) =~= all.take(i as int));
    }
    assert(listing(out@) =~= all);
    out
}

/// Every tensor that a header names is described in it, and every one described is
/// named.
pub proof fn header_names_its_tensors(tree: JsonTree, header_size: u64)
    ensures
        header_of(tree, header_size) matches Ok(h) ==> {
            &&& names_known(h)
            &&& forall|k: Seq<char>|
                #[trigger] h.tensors.contains_key(k) ==> h.tensor_names.contains(k)
            &&& !h.tensors.contains_key("__metadata__"@)
        },
{
    match tree.as_entries() {
        Some(entries) => {
            lemma_header_from(
                sorted_texts(entry_names(entries)),
                tree,
                (8 + header_size) as u64,
                0,
                HeaderView {
                    tensor_names: seq![],
                    tensors: Map::empty(),
                    header_size: (8 + header_size) as u64,
                },
            );
        },
        None => {},
    }
}

proof fn lemma_header_from(
    names: Seq<Seq<char>>,
    tree: JsonTree,
    base: u64,
    i: int,
    before: HeaderView,
)
    requires
        0 <= i,
        names_known(before),
        forall|k: Seq<char>|
            #[trigger] before.tensors.contains_key(k) ==> before.tensor_names.contains(k),
        !before.tensors.contains_key("__metadata__"@),
    ensures
        header_from(names, tree, base, i, before) matches Ok(h) ==> {
            &&& names_known(h)
            &&& forall|k: Seq<char>|
                #[trigger] h.tensors.contains_key(k) ==> h.tensor_names.contains(k)
            &&& !h.tensors.contains_key("__metadata__"@)
        },
    decreases names.len() - i,
{
    if i < names.len() {
        if names[i] == "__metadata__"@ {
            lemma_header_from(names, tree, base, i + 1, before);
        } else {
            let entry = match tree.get(names[i]) {
                Some(entry) => entry,
                None => JsonTree::Null,
            };
            match meta_of(names[i], entry, base) {
                Ok(meta) => {
                    let next = HeaderView {
                        tensor_names: before.tensor_names.push(names[i]),
                        tensors: before.tensors.insert(names[i], meta),
                        ..before
                    };
                    assert forall|k: Seq<char>| #[trigger] next.tensors.contains_key(k) implies next
                        .tensor_names.contains(k) by {
                        if k == names[i] {
                            assert(next.tensor_names[before.tensor_names.len() as int] == k);
                        } else {
                            assert(before.tensor_names.contains(k));
                            let j = before.tensor_names.index_of(k);
                            assert(next.tensor_names[j] == k);
                        }
                    }
                    lemma_header_from(names, tree, base, i + 1, next);
                },
                Err(_) => {},
            }
        }
    }
}

/// The tensors of a file are listed under names that ascend strictly, each once: every
/// entry of the header but the one for other data, and nothing else.
pub proof fn tensors_are_listed_once(tree: JsonTree, header_size: u64)
    requires
        tree.keys_differ(),
    ensures
        header_of(tree, header_size) matches Ok(h) ==> {
            &&& strictly_ascend(h.tensor_names)
            &&& forall|k: Seq<char>| #[trigger]
                h.tensor_names.contains(k) <==> k != "__metadata__"@ && entry_names(
                    tree.as_entries()->0,
                ).contains(k)
        },
{
    match tree.as_entries() {
        Some(entries) => {
            let names = entry_names(entries);
            assert(names.no_duplicates()) by {
                assert forall|i: int, j: int|
                    0 <= i < names.len() && 0 <= j < names.len() && i != j implies names[i]
                    != names[j] by {
                    if i < j {
                        assert(entries[i].0 != entries[j].0);
                    } else {
                        assert(entries[j].0 != entries[i].0);
                    }
                }
            }
            sorted_texts_ascend_strictly(names);
            let order = sorted_texts(names);
            let start = HeaderView {
                tensor_names: seq![],
                tensors: Map::empty(),
                header_size: (8 + header_size) as u64,
            };
            lemma_listed(order, tree, (8 + header_size) as u64, 0, start);
            assert(order.skip(0) =~= order);
        },
        None => {},
    }
}

proof fn lemma_listed(
    names: Seq<Seq<char>>,
    tree: JsonTree,
    base: u64,
    i: int,
    before: HeaderView,
)
    requires
        0 <= i <= names.len(),
        strictly_ascend(before.tensor_names + names.skip(i)),
        !before.tensor_names.contains("__metadata__"@),
    ensures
        header_from(names, tree, base, i, before) matches Ok(h) ==> {
            &&& strictly_ascend(h.tensor_names)
            &&& forall|k: Seq<char>| #[trigger]
                h.tensor_names.contains(k) <==> k != "__metadata__"@ && (
                before.tensor_names.contains(k) || names.skip(i).contains(k))
        },
    decreases names.len() - i,
{
    let all = before.tensor_names + names.skip(i);
    let n = before.tensor_names.len() as int;
    if i < names.len() {
        let rest = names.skip(i + 1);
        assert(names.skip(i) =~= seq![names[i]] + rest);
        assert forall|k: Seq<char>| #[trigger] names.skip(i).contains(k) <==> k == names[i]
            || rest.contains(k) by {
            if names.skip(i).contains(k) {
                let j = names.skip(i).index_of(k);
                if j > 0 {
                    assert(rest[j - 1] == k);
                }
            }
            if k == names[i] {
                assert(names.skip(i)[0] == k);
            }
            if rest.contains(k) {
                assert(names.skip(i)[rest.index_of(k) + 1] == k);
            }
        }
        if names[i] == "__metadata__"@ {
            let fewer = before.tensor_names + rest;
            assert(fewer =~= all.remove(n));
            assert(strictly_ascend(fewer)) by {
                assert forall|a: int, b: int|
                    #![trigger fewer[a], fewer[b]]
                    0 <= a < b < fewer.len() implies crate::order::text_le(fewer[a], fewer[b])
                    && fewer[a] != fewer[b] by {
                    let x = if a < n {
                        a
                    } else {
                        a + 1
                    };
                    let y = if b < n {
                        b
                    } else {
                        b + 1
                    };
                    assert(fewer[a] == all[x] && fewer[b] == all[y]);
                }
            }
            lemma_listed(names, tree, base, i + 1, before);
        } else {
            let entry = match tree.get(names[i]) {
                Some(entry) => entry,
                None => JsonTree::Null,
            };
            match meta_of(names[i], entry, base) {
                Ok(meta) => {
                    let next = HeaderView {
                        tensor_names: before.tensor_names.push(names[i]),
                        tensors: before.tensors.insert(names[i], meta),
                        ..before
                    };
                    assert(next.tensor_names + rest =~= all);
                    assert forall|k: Seq<char>| #[trigger] next.tensor_names.contains(k) <==> k
                        == names[i] || before.tensor_names.contains(k) by {
                        if next.tensor_names.contains(k) {
                            let j = next.tensor_names.index_of(k);
                            if j < n {
                                assert(before.tensor_names[j] == k);
                            }
                        }
                        if k == names[i] {
                            assert(next.tensor_names[n] == k);
                        }
                        if before.tensor_names.contains(k) {
                            assert(next.tensor_names[before.tensor_names.index_of(k)] == k);
                        }
                    }
                    lemma_listed(names, tree, base, i + 1, next);
                },
                Err(_) => {},
            }
        }
    } else {
        assert(all =~= before.tensor_names);
    }
}

} // verus!
