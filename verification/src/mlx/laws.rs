//! What the bytes of safetensors files mean.

use crate::bytes::{u32_at, u64_at};
use crate::gguf::file_laws::{lemma_signs, lowest_bytes_come_first, number_at, signed};
use crate::json::{parsed_json, JsonTree};
use crate::mlx::error::FaultView;
use crate::mlx::files::{is_weight_file, weight_names};
use crate::mlx::header::{
    dtype_size, elements, entry_names, file_header, header_from, header_of, meta_of, HeaderView,
    MAX_HEADER_SIZE,
};
use crate::mlx::loader::{data_bytes, header_bytes, with_file, MergeView};
use crate::mlx::payload::{MlxDtype, MlxTerm};
use crate::order::{sorted_texts, sorted_texts_ascend};
use vstd::prelude::*;

verus! {

/// Types of elements are known by their names, and by no others.
pub proof fn names_stand_for_types(name: Seq<char>)
    ensures
        name == "F32"@ ==> MlxDtype::named(name) == Some(MlxDtype::F32),
        name == "F16"@ ==> MlxDtype::named(name) == Some(MlxDtype::Half),
        name == "BF16"@ ==> MlxDtype::named(name) == Some(MlxDtype::BF16),
        name == "I32"@ ==> MlxDtype::named(name) == Some(MlxDtype::I32),
        name == "I64"@ ==> MlxDtype::named(name) == Some(MlxDtype::I64),
        MlxDtype::named(name) is Some ==> name == "F32"@ || name == "F16"@ || name == "BF16"@
            || name == "I32"@ || name == "I64"@,
        MlxDtype::named(name) matches Some(t) ==> t.spec_size() == dtype_size(name),
{
    reveal_strlit("F32");
    reveal_strlit("F16");
    reveal_strlit("BF16");
    reveal_strlit("I64");
    reveal_strlit("I32");
    reveal_strlit("I16");
    reveal_strlit("I8");
    reveal_strlit("U8");
    assert("F32"@[1] == '3' && "F16"@[1] == '1' && "I64"@[1] == '6' && "I32"@[1] == '3');
    assert("F32"@[0] == 'F' && "F16"@[0] == 'F' && "I64"@[0] == 'I' && "I32"@[0] == 'I'
        && "I16"@[0] == 'I' && "I16"@[1] == '1');
    assert("BF16"@.len() == 4 && "I8"@.len() == 2 && "U8"@.len() == 2);
}

/// An element takes as many bytes as the number in the name of its type says.
pub proof fn names_tell_sizes()
    ensures
        dtype_size("F32"@) * 8 == 32,
        dtype_size("F16"@) * 8 == 16,
        dtype_size("BF16"@) * 8 == 16,
        dtype_size("I64"@) * 8 == 64,
        dtype_size("I32"@) * 8 == 32,
        dtype_size("I16"@) * 8 == 16,
        dtype_size("I8"@) * 8 == 8,
        dtype_size("U8"@) * 8 == 8,
{
    reveal_strlit("F32");
    reveal_strlit("F16");
    reveal_strlit("BF16");
    reveal_strlit("I64");
    reveal_strlit("I32");
    reveal_strlit("I16");
    reveal_strlit("I8");
    reveal_strlit("U8");
    assert("F32"@[1] == '3' && "F16"@[1] == '1' && "I64"@[1] == '6' && "I32"@[1] == '3');
    assert("F32"@[0] == 'F' && "F16"@[0] == 'F' && "I64"@[0] == 'I' && "I32"@[0] == 'I'
        && "I16"@[0] == 'I' && "I16"@[1] == '1' && "I8"@[0] == 'I' && "U8"@[0] == 'U');
    assert("BF16"@.len() == 4 && "I8"@.len() == 2 && "U8"@.len() == 2);
}

/// Every element is the number that its bytes make up, the lowest first: its bits, or a
/// whole number with its sign. The short form is the upper half of a single-precision
/// number, sign included.
pub proof fn elements_are_their_bytes(data: Seq<u8>, i: int)
    ensures
        MlxDtype::F32.terms(data).len() == data.len() / 4,
        MlxDtype::Half.terms(data).len() == data.len() / 2,
        MlxDtype::BF16.terms(data).len() == data.len() / 2,
        MlxDtype::I32.terms(data).len() == data.len() / 4,
        MlxDtype::I64.terms(data).len() == data.len() / 8,
        0 <= i < data.len() / 4 ==> MlxDtype::F32.terms(data)[i] == MlxTerm::Value(
            number_at(data, 4 * i, 4) as u32,
        ) && number_at(data, 4 * i, 4) <= u32::MAX,
        0 <= i < data.len() / 2 ==> MlxDtype::Half.terms(data)[i] == MlxTerm::Half(
            number_at(data, 2 * i, 2) as u16,
        ) && number_at(data, 2 * i, 2) <= u16::MAX,
        0 <= i < data.len() / 2 ==> MlxDtype::BF16.terms(data)[i] == MlxTerm::Value(
            (number_at(data, 2 * i, 2) * 0x1_0000) as u32,
        ) && number_at(data, 2 * i, 2) * 0x1_0000 <= u32::MAX,
        0 <= i < data.len() / 4 ==> MlxDtype::I32.terms(data)[i] == MlxTerm::Whole(
            signed(number_at(data, 4 * i, 4), 0x8000_0000) as i64,
        ),
        0 <= i < data.len() / 8 ==> MlxDtype::I64.terms(data)[i] == MlxTerm::Whole(
            signed(number_at(data, 8 * i, 8), 0x8000_0000_0000_0000) as i64,
        ),
        0 <= i < data.len() / 8 ==> i64::MIN <= signed(
            number_at(data, 8 * i, 8),
            0x8000_0000_0000_0000,
        ) <= i64::MAX,
{
    lowest_bytes_come_first(data, 2 * i);
    lowest_bytes_come_first(data, 4 * i);
    lowest_bytes_come_first(data, 8 * i);
    lemma_signs(0, 0, u32_at(data, 4 * i), u64_at(data, 8 * i));
}

/// The elements of a shape are counted by multiplying its dimensions.
pub proof fn dimensions_multiply(shape: Seq<usize>, n: usize)
    ensures
        elements(seq![]) == 1,
        elements(shape.push(n)) == elements(shape) * n,
{
    assert(shape.push(n).drop_last() =~= shape);
}

/// A tensor has the type, the dimensions and the place that its entry states. Its data
/// lies between the two offsets, counted from where the data of the file starts.
pub proof fn tensors_are_as_stated(name: Seq<char>, entry: JsonTree, base: u64, i: int)
    ensures
        meta_of(name, entry, base) matches Ok(meta) ==> {
            &&& entry.get("dtype"@) == Some(JsonTree::Text(meta.dtype))
            &&& entry.get("shape"@) matches Some(JsonTree::List(shape))
            &&& meta.shape.len() == shape.len()
            &&& 0 <= i < shape.len() ==> shape[i].as_u64() is Some
            &&& 0 <= i < shape.len() && shape[i].as_u64()->0 <= usize::MAX ==> meta.shape[i]
                == shape[i].as_u64()->0
            &&& entry.get("data_offsets"@) matches Some(JsonTree::List(offsets))
            &&& offsets.len() == 2
            &&& offsets[0].as_u64() is Some
            &&& offsets[1].as_u64() is Some
            &&& meta.data_offset == base + offsets[0].as_u64()->0
            &&& offsets[1].as_u64()->0 >= offsets[0].as_u64()->0
            &&& offsets[1].as_u64()->0 <= usize::MAX ==> meta.data_size == offsets[1].as_u64()->0
                - offsets[0].as_u64()->0
        },
{
    if meta_of(name, entry, base) is Ok {
        let shape = entry.list_of("shape"@)->0;
        if 0 <= i < shape.len() {
            assert(shape[i].as_u64() is Some);
        }
    }
}

/// A whole entry is never refused.
pub proof fn whole_entries_are_taken(
    name: Seq<char>,
    entry: JsonTree,
    base: u64,
    dtype: Seq<char>,
    shape: Seq<JsonTree>,
    offsets: Seq<JsonTree>,
)
    requires
        entry.get("dtype"@) == Some(JsonTree::Text(dtype)),
        entry.get("shape"@) == Some(JsonTree::List(shape)),
        forall|i: int| 0 <= i < shape.len() ==> (#[trigger] shape[i]).as_u64() is Some,
        entry.get("data_offsets"@) == Some(JsonTree::List(offsets)),
        offsets.len() == 2,
        offsets[0].as_u64() is Some,
        offsets[1].as_u64() is Some,
        offsets[0].as_u64()->0 <= offsets[1].as_u64()->0,
        base + offsets[0].as_u64()->0 <= u64::MAX,
    ensures
        meta_of(name, entry, base) is Ok,
{
}

proof fn lemma_taken(
    names: Seq<Seq<char>>,
    tree: JsonTree,
    base: u64,
    i: int,
    before: HeaderView,
    k: Seq<char>,
)
    requires
        0 <= i <= names.len(),
    ensures
        header_from(names, tree, base, i, before) matches Ok(h) ==> {
            &&& h.header_size == before.header_size
            &&& h.tensors.contains_key(k) <==> before.tensors.contains_key(k) || (k
                != "__metadata__"@ && exists|j: int| i <= j < names.len() && #[trigger] names[j]
                == k)
            &&& k != "__metadata__"@ && (exists|j: int|
                i <= j < names.len() && #[trigger] names[j] == k) ==> meta_of(
                k,
                tree.get(k).unwrap_or(JsonTree::Null),
                base,
            ) == Ok::<_, FaultView>(h.tensors[k])
        },
        header_from(names, tree, base, i, before) matches Ok(h) ==> (!(exists|j: int|
            i <= j < names.len() && #[trigger] names[j] == k) ==> h.tensors[k]
            == before.tensors[k]),
    decreases names.len() - i,
{
    if i < names.len() {
        let entry = match tree.get(names[i]) {
            Some(entry) => entry,
            None => JsonTree::Null,
        };
        if names[i] == "__metadata__"@ {
            lemma_taken(names, tree, base, i + 1, before, k);
        } else if meta_of(names[i], entry, base) is Ok {
            let meta = meta_of(names[i], entry, base)->Ok_0;
            lemma_taken(
                names,
                tree,
                base,
                i + 1,
                HeaderView {
                    tensor_names: before.tensor_names.push(names[i]),
                    tensors: before.tensors.insert(names[i], meta),
                    ..before
                },
                k,
            );
        }
        if exists|j: int| i <= j < names.len() && #[trigger] names[j] == k {
            let j = choose|j: int| i <= j < names.len() && #[trigger] names[j] == k;
            assert(names[j] == k);
            if j > i {
                assert(exists|j: int| i + 1 <= j < names.len() && #[trigger] names[j] == k);
            }
        }
    }
}

/// A file starts with the length of its header in eight bytes. A length of zero, or of
/// more than a hundred million, is refused, as is a file that ends ahead of its header.
pub proof fn headers_have_stated_length(bytes: Seq<u8>)
    requires
        file_header(bytes) is Ok,
    ensures
        bytes.len() >= 8,
        1 <= number_at(bytes, 0, 8) <= 100_000_000,
        bytes.len() >= 8 + number_at(bytes, 0, 8),
        (file_header(bytes)->Ok_0).header_size == 8 + number_at(bytes, 0, 8),
{
    lowest_bytes_come_first(bytes, 0);
    let size = u64_at(bytes, 0);
    let tree = parsed_json(bytes.subrange(8, 8 + size))->0;
    let names = sorted_texts(
        entry_names(tree.as_entries()->0),
    );
    lemma_taken(
        names,
        tree,
        (8 + size) as u64,
        0,
        HeaderView {
            tensor_names: seq![],
            tensors: Map::empty(),
            header_size: (8 + size) as u64,
        },
        seq![],
    );
}

/// The tensors of a header are the entries of its object, but for the one that holds other
/// data. Each is described by its own entry, and its data is counted from behind the
/// header.
pub proof fn tensors_are_the_entries(tree: JsonTree, size: u64, k: Seq<char>)
    requires
        size <= MAX_HEADER_SIZE,
    ensures
        header_of(tree, size) matches Ok(h) ==> {
            &&& tree is Entries
            &&& h.tensors.contains_key(k) <==> k != "__metadata__"@ && tree.get(k) is Some
            &&& h.tensors.contains_key(k) ==> meta_of(k, tree.get(k)->0, (8 + size) as u64)
                == Ok::<_, FaultView>(h.tensors[k])
        },
{
    if tree is Entries {
        let entries = tree.as_entries()->0;
        let plain = entry_names(entries);
        let names = sorted_texts(plain);
        lemma_taken(
            names,
            tree,
            (8 + size) as u64,
            0,
            HeaderView {
                tensor_names: seq![],
                tensors: Map::empty(),
                header_size: (8 + size) as u64,
            },
            k,
        );
        lemma_found(entries, k, 0);
        lemma_sorted_keeps(plain, k);
        if plain.contains(k) {
            let j = plain.index_of(k);
            assert(entries[j].0 == k);
            let q = names.index_of(k);
            assert(names[q] == k);
        } else if exists|j: int| 0 <= j < names.len() && #[trigger] names[j] == k {
            let j = choose|j: int| 0 <= j < names.len() && #[trigger] names[j] == k;
            assert(names.contains(k));
        }
        if exists|j: int| 0 <= j < entries.len() && (#[trigger] entries[j]).0 == k {
            let j = choose|j: int| 0 <= j < entries.len() && (#[trigger] entries[j]).0 == k;
            assert(plain[j] == k);
        }
    }
}

proof fn lemma_found(entries: Seq<(Seq<char>, JsonTree)>, k: Seq<char>, i: int)
    requires
        0 <= i,
    ensures
        JsonTree::entry_from(entries, k, i) is Some <==> exists|j: int|
            i <= j < entries.len() && (#[trigger] entries[j]).0 == k,
    decreases entries.len() - i,
{
    if i < entries.len() {
        lemma_found(entries, k, i + 1);
        if entries[i].0 == k {
            assert(i <= i < entries.len() && entries[i].0 == k);
        }
    }
}

proof fn lemma_sorted_keeps(names: Seq<Seq<char>>, k: Seq<char>)
    ensures
        sorted_texts(names).contains(k) <==> names.contains(k),
{
    broadcast use vstd::seq_lib::group_to_multiset_ensures;

    sorted_texts_ascend(names);
    assert(sorted_texts(names).contains(k) <==> sorted_texts(names).to_multiset().count(k) > 0);
    assert(names.contains(k) <==> names.to_multiset().count(k) > 0);
}

/// Files are taken in their order: a tensor comes with the description that its file has,
/// and no name may be there twice.
pub proof fn files_are_taken_in_turn(h: HeaderView, file: usize, j: int, before: MergeView)
    requires
        0 <= j < h.tensor_names.len(),
    ensures
        before.tensors.contains_key(h.tensor_names[j]) ==> with_file(h, file, j, before) is Err,
        !before.tensors.contains_key(h.tensor_names[j]) ==> with_file(h, file, j, before)
            == with_file(
            h,
            file,
            j + 1,
            MergeView {
                names: before.names + seq![h.tensor_names[j]],
                tensors: before.tensors.insert(h.tensor_names[j], h.tensors[h.tensor_names[j]]),
                files: before.files.insert(h.tensor_names[j], file),
            },
        ),
{
    assert(before.names + seq![h.tensor_names[j]] =~= before.names.push(h.tensor_names[j]));
}

/// A file's tensors all come, each as that file describes it, and none of another name.
pub proof fn all_tensors_of_files_come(
    h: HeaderView,
    file: usize,
    j: int,
    before: MergeView,
    k: Seq<char>,
)
    requires
        0 <= j <= h.tensor_names.len(),
    ensures
        with_file(h, file, j, before) matches Ok(m) ==> {
            &&& m.tensors.contains_key(k) <==> before.tensors.contains_key(k)
                || h.tensor_names.skip(j).contains(k)
            &&& h.tensor_names.skip(j).contains(k) ==> m.tensors[k] == h.tensors[k] && m.files[k]
                == file && !before.tensors.contains_key(k)
            &&& before.tensors.contains_key(k) ==> m.tensors[k] == before.tensors[k] && m.files[k]
                == before.files[k]
            &&& m.names == before.names + h.tensor_names.skip(j)
        },
    decreases h.tensor_names.len() - j,
{
    let rest = h.tensor_names.skip(j);
    if j < h.tensor_names.len() {
        let name = h.tensor_names[j];
        assert(rest =~= seq![name] + h.tensor_names.skip(j + 1));
        if !before.tensors.contains_key(name) {
            let next = MergeView {
                names: before.names.push(name),
                tensors: before.tensors.insert(name, h.tensors[name]),
                files: before.files.insert(name, file),
            };
            all_tensors_of_files_come(h, file, j + 1, next, k);
            let m = with_file(h, file, j, before);
            if m is Ok {
                let more = h.tensor_names.skip(j + 1);
                assert(next.names + more =~= before.names + rest);
                if rest.contains(k) && k != name {
                    let q = rest.index_of(k);
                    assert(more[q - 1] == k);
                }
                if more.contains(k) {
                    let q = more.index_of(k);
                    assert(rest[q + 1] == k);
                }
                assert(rest[0] == name);
            }
        }
    } else {
        assert(rest =~= seq![]);
        assert(before.names + rest =~= before.names);
    }
}

/// The sizes of files and of tensors are added up, each once.
pub proof fn sizes_are_added_up(hs: Seq<HeaderView>, h: HeaderView, n: int)
    requires
        n >= 0,
    ensures
        header_bytes(hs, 0) == 0,
        header_bytes(hs, n + 1) == header_bytes(hs, n) + hs[n].header_size,
        data_bytes(h, 0) == 0,
        data_bytes(h, n + 1) == data_bytes(h, n) + h.tensors[h.tensor_names[n]].data_size,
{
}

/// The files with weights are those whose names end in that of the format, in the order in
/// which they were found.
pub proof fn weight_files_are_found(names: Seq<Seq<char>>, n: int, stem: Seq<char>)
    requires
        0 <= n < names.len(),
    ensures
        stem.len() > 0 ==> is_weight_file(stem + ".safetensors"@),
        !is_weight_file(".safetensors"@),
        is_weight_file(names[n]) ==> names[n].len() > 12 && names[n].take(names[n].len() - 12)
            + ".safetensors"@ == names[n],
        is_weight_file(names[n]) ==> weight_names(names, n + 1) == weight_names(names, n) + seq![
            names[n],
        ],
        !is_weight_file(names[n]) ==> weight_names(names, n + 1) == weight_names(names, n),
{
    let ending = ".safetensors"@;
    reveal_strlit(".safetensors");
    assert(ending.len() == 12);
    let whole = stem + ending;
    assert(whole.skip(whole.len() - ending.len()) =~= ending);
    if is_weight_file(names[n]) {
        let m = names[n];
        assert(m.take(m.len() - 12) + m.skip(m.len() - 12) =~= m);
        assert(weight_names(names, n).push(m) =~= weight_names(names, n) + seq![m]);
    }
}

} // verus!
