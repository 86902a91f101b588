//! The files of a model, taken together.

use crate::memory::size::{format_size, size_text};
use crate::mlx::config::MlxModelConfig;
use crate::mlx::error::{MlxError, MlxErrorView};
use crate::mlx::header::{names_known, HeaderView, MetaView, SafeTensorsHeader, TensorMeta};
use crate::names::NameMap;
use crate::order::{sort_texts, sorted_texts};
use crate::text::{decimal, decimal_string, texts};
use vstd::prelude::*;

verus! {

/// The headers of a list.
pub open spec fn header_views(v: Seq<SafeTensorsHeader>) -> Seq<HeaderView> {
    Seq::new(v.len(), |i: int| v[i]@)
}

/// Headers taken together: the tensors in the order in which they came, and the file
/// that each is in.
#[verifier::ext_equal]
pub struct MergeView {
    pub names: Seq<Seq<char>>,
    pub tensors: Map<Seq<char>, MetaView>,
    pub files: Map<Seq<char>, usize>,
}

/// Nothing was taken yet.
pub open spec fn no_tensors() -> MergeView {
    MergeView { names: seq![], tensors: Map::empty(), files: Map::empty() }
}

/// The tensors of one file, from place `j` on, behind those taken before. A name that
/// was there already ends it.
pub open spec fn with_file(h: HeaderView, file: usize, j: int, before: MergeView) -> Result<
    MergeView,
    MlxErrorView,
>
    decreases h.tensor_names.len() - j,
{
    if j < 0 || j >= h.tensor_names.len() {
        Ok(before)
    } else {
        let name = h.tensor_names[j];
        if before.tensors.contains_key(name) {
            Err(MlxErrorView::Duplicate(name))
        } else {
            with_file(
                h,
                file,
                j + 1,
                MergeView {
                    names: before.names.push(name),
                    tensors: before.tensors.insert(name, h.tensors[name]),
                    files: before.files.insert(name, file),
                },
            )
        }
    }
}

/// The tensors of the files from `i` on, behind those taken before.
pub open spec fn with_files(hs: Seq<HeaderView>, i: int, before: MergeView) -> Result<
    MergeView,
    MlxErrorView,
>
    decreases hs.len() - i,
{
    if i < 0 || i >= hs.len() {
        Ok(before)
    } else {
        match with_file(hs[i], i as usize, 0, before) {
            Ok(next) => with_files(hs, i + 1, next),
            Err(e) => Err(e),
        }
    }
}

/// The bytes of the first `n` headers.
pub open spec fn header_bytes(hs: Seq<HeaderView>, n: int) -> nat
    decreases n,
{
    if n <= 0 {
        0
    } else {
        header_bytes(hs, n - 1) + hs[n - 1].header_size as nat
    }
}

/// The bytes of the data of the first `n` tensors.
pub open spec fn data_bytes(h: HeaderView, n: int) -> nat
    decreases n,
{
    if n <= 0 {
        0
    } else {
        data_bytes(h, n - 1) + h.tensors[h.tensor_names[n - 1]].data_size as nat
    }
}

proof fn lemma_header_bytes(hs: Seq<HeaderView>, n: int, m: int)
    requires
        0 <= n <= m,
    ensures
        header_bytes(hs, n) <= header_bytes(hs, m),
    decreases m,
{
    if n < m {
        lemma_header_bytes(hs, n, m - 1);
    }
}

proof fn lemma_data_bytes(h: HeaderView, n: int, m: int)
    requires
        0 <= n <= m,
    ensures
        data_bytes(h, n) <= data_bytes(h, m),
    decreases m,
{
    if n < m {
        lemma_data_bytes(h, n, m - 1);
    }
}

/// Every tensor taken is described, is in one of the files, and is described as there.
pub open spec fn taken_from(hs: Seq<HeaderView>, m: MergeView) -> bool {
    &&& forall|k: Seq<char>| #[trigger] m.names.contains(k) ==> m.tensors.contains_key(k)
    &&& forall|k: Seq<char>|
        #[trigger] m.tensors.contains_key(k) ==> {
            &&& m.files.contains_key(k)
            &&& m.files[k] < hs.len()
            &&& hs[m.files[k] as int].tensors.contains_key(k)
            &&& hs[m.files[k] as int].tensors[k] == m.tensors[k]
        }
}

proof fn lemma_with_file(hs: Seq<HeaderView>, file: usize, j: int, before: MergeView)
    requires
        file < hs.len(),
        names_known(hs[file as int]),
        0 <= j,
        taken_from(hs, before),
    ensures
        with_file(hs[file as int], file, j, before) matches Ok(m) ==> taken_from(hs, m),
    decreases hs[file as int].tensor_names.len() - j,
{
    let h = hs[file as int];
    if j < h.tensor_names.len() {
        let name = h.tensor_names[j];
        if !before.tensors.contains_key(name) {
            let next = MergeView {
                names: before.names.push(name),
                tensors: before.tensors.insert(name, h.tensors[name]),
                files: before.files.insert(name, file),
            };
            assert forall|k: Seq<char>| #[trigger] next.names.contains(k) implies next
                .tensors.contains_key(k) by {
                if k != name {
                    let i = next.names.index_of(k);
                    assert(before.names[i] == k);
                    assert(before.names.contains(k));
                }
            }
            lemma_with_file(hs, file, j + 1, next);
        }
    }
}

proof fn lemma_with_files(hs: Seq<HeaderView>, i: int, before: MergeView)
    requires
        0 <= i,
        hs.len() <= usize::MAX,
        forall|i: int| 0 <= i < hs.len() ==> names_known(#[trigger] hs[i]),
        taken_from(hs, before),
    ensures
        with_files(hs, i, before) matches Ok(m) ==> taken_from(hs, m),
    decreases hs.len() - i,
{
    if i < hs.len() {
        lemma_with_file(hs, i as usize, 0, before);
        match with_file(hs[i], i as usize, 0, before) {
            Ok(next) => {
                lemma_with_files(hs, i + 1, next);
            },
            Err(_) => {},
        }
    }
}

/// Each tensor of a model is in the file that it is said to be in, and is described as
/// it is there.
pub proof fn tensors_stay_with_their_files(hs: Seq<HeaderView>)
    requires
        hs.len() <= usize::MAX,
        forall|i: int| 0 <= i < hs.len() ==> names_known(#[trigger] hs[i]),
    ensures
        with_files(hs, 0, no_tensors()) matches Ok(m) ==> taken_from(hs, m),
{
    lemma_with_files(hs, 0, no_tensors());
}

/// The files of a model, taken together.
#[derive(Debug)]
pub struct MlxModelLoader {
    pub config: Option<MlxModelConfig>,
    pub header: SafeTensorsHeader,
    pub weight_path: String,
    /// The paths of the files.
    pub paths: Vec<String>,
    /// The place, among the paths, of the file that a tensor is in.
    pub tensor_files: NameMap<usize>,
}

impl MlxModelLoader {
    /// Takes the headers of a model's files together.
    pub fn new(
        paths: Vec<String>,
        headers: &Vec<SafeTensorsHeader>,
        config: Option<MlxModelConfig>,
    ) -> (r: Result<Self, MlxError>)
        requires
            paths@.len() == headers@.len(),
            headers@.len() > 0,
            header_bytes(header_views(headers@), headers@.len() as int) <= u64::MAX,
            forall|i: int| 0 <= i < headers@.len() ==> names_known((#[trigger] headers@[i])@),
        ensures
            match (r, with_files(header_views(headers@), 0, no_tensors())) {
                (Ok(loader), Ok(m)) => {
                    &&& loader.config == config
                    &&& loader.paths == paths
                    &&& loader.weight_path@ == paths@[0]@
                    &&& loader.tensor_files@ == m.files
                    &&& loader.header@ == (HeaderView {
                        tensor_names: sorted_texts(m.names),
                        tensors: m.tensors,
                        header_size: header_bytes(
                            header_views(headers@),
                            headers@.len() as int,
                        ) as u64,
                    })
                },
                (Err(e), Err(expected)) => e@ == expected,
                _ => false,
            },
    {
        let ghost hs = header_views(headers@);
        let mut names: Vec<String> = Vec::new();
        let mut tensors: NameMap<TensorMeta> = NameMap::new();
        let mut tensor_files: NameMap<usize> = NameMap::new();
        let mut header_size: u64 = 0;
        let mut i: usize = 0;
        assert(texts(names@) =~= no_tensors().names);
        while i < headers.len()
            invariant
                i <= headers@.len(),
                hs == header_views(headers@),
                header_bytes(hs, hs.len() as int) <= u64::MAX,
                header_size == header_bytes(hs, i as int),
                forall|i: int| 0 <= i < headers@.len() ==> names_known((#[trigger] headers@[i])@),
                with_files(hs, 0, no_tensors()) == with_files(
                    hs,
                    i as int,
                    MergeView {
                        names: texts(names@),
                        tensors: tensors@,
                        files: tensor_files@,
                    },
                ),
            decreases headers@.len() - i,
        {
            let ghost h = headers@[i as int]@;
            assert(hs[i as int] == h);
            proof {
                lemma_header_bytes(hs, i + 1, hs.len() as int);
            }
            header_size = header_size + headers[i].header_size;
            let header = &headers[i];
            let ghost before = MergeView {
                names: texts(names@),
                tensors: tensors@,
                files: tensor_files@,
            };
            let mut j: usize = 0;
            while j < header.tensor_names.len()
                invariant
                    j <= header.tensor_names@.len(),
                    i < headers@.len(),
                    h == header@,
                    hs[i as int] == h,
                    names_known(h),
                    hs == header_views(headers@),
                    with_files(hs, 0, no_tensors()) == with_files(hs, i as int, before),
                    with_file(h, i, 0, before) == with_file(
                        h,
                        i,
                        j as int,
                        MergeView {
                            names: texts(names@),
                            tensors: tensors@,
                            files: tensor_files@,
                        },
                    ),
                decreases header.tensor_names@.len() - j,
            {
                let name = header.tensor_names[j].as_str();
                assert(h.tensor_names[j as int] == name@);
                if tensors.contains_key(name) {
                    return Err(MlxError::Duplicate(name.to_string()));
                }
                let ghost soon = texts(names@).push(name@);
                match header.tensors.get(name) {
                    Some(meta) => {
                        tensors.insert(name.to_string(), meta.clone());
                        tensor_files.insert(name.to_string(), i);
                        names.push(name.to_string());
                        assert(texts(names@) =~= soon);
                    },
                    None => {},
                }
                j += 1;
            }
            i += 1;
        }
        let tensor_names = sort_texts(names);
        let weight_path = paths[0].clone();
        Ok(
            MlxModelLoader {
                config,
                header: SafeTensorsHeader { tensor_names, tensors, header_size },
                weight_path,
                paths,
                tensor_files,
            },
        )
    }

    /// The place, among the paths, of the file that a tensor is in.
    pub fn tensor_file(&self, name: &str) -> (r: Result<usize, MlxError>)
        ensures
            match r {
                Ok(i) => self.tensor_files@.contains_key(name@) && i == self.tensor_files@[name@],
                Err(e) => !self.tensor_files@.contains_key(name@) && e@ == MlxErrorView::NotFound(
                    name@,
                ),
            },
    {
        match self.tensor_files.get(name) {
            Some(i) => Ok(*i),
            None => Err(MlxError::NotFound(name.to_string())),
        }
    }

    /// The names of the tensors, in ascending order.
    pub fn tensor_names(&self) -> (r: &Vec<String>)
        ensures
            texts(r@) == self.header@.tensor_names,
    {
        &self.header.tensor_names
    }

    /// The description of a tensor.
    pub fn tensor_meta(&self, name: &str) -> (r: Option<&TensorMeta>)
        ensures
            r is Some <==> self.header@.tensors.contains_key(name@),
            r matches Some(m) ==> m@ == self.header@.tensors[name@],
    {
        self.header.tensors.get(name)
    }

    /// The bytes of all the tensors' data.
    fn total_size(&self) -> (r: usize)
        requires
            names_known(self.header@),
            data_bytes(self.header@, self.header@.tensor_names.len() as int) <= usize::MAX,
        ensures
            r == data_bytes(self.header@, self.header@.tensor_names.len() as int),
    {
        let mut total: usize = 0;
        let mut i: usize = 0;
        let ghost h = self.header@;
        while i < self.header.tensor_names.len()
            invariant
                i <= self.header.tensor_names@.len(),
                h == self.header@,
                names_known(h),
                data_bytes(h, h.tensor_names.len() as int) <= usize::MAX,
                total == data_bytes(h, i as int),
            decreases self.header.tensor_names@.len() - i,
        {
            proof {
                lemma_data_bytes(h, i + 1, h.tensor_names.len() as int);
                assert(h.tensors.contains_key(h.tensor_names[i as int]));
            }
            match self.header.tensors.get(self.header.tensor_names[i].as_str()) {
                Some(meta) => {
                    total = total + meta.data_size;
                },
                None => {},
            }
            i += 1;
        }
        total
    }

    /// What the loader says of the model.
    pub fn info(&self) -> (r: String)
        requires
            names_known(self.header@),
            data_bytes(self.header@, self.header@.tensor_names.len() as int) <= usize::MAX,
        ensures
            r@ == "MLX Model: "@ + decimal(self.header@.tensor_names.len()) + " tensors, "@
                + size_text(data_bytes(self.header@, self.header@.tensor_names.len() as int))
                + "\nPath: "@ + self.weight_path@,
    {
        let mut out = "MLX Model: ".to_string();
        out.append(decimal_string(self.header.tensor_names.len() as u64).as_str());
        out.append(" tensors, ");
        out.append(format_size(self.total_size()).as_str());
        out.append("\nPath: ");
        out.append(self.weight_path.as_str());
        out
    }
}

} // verus!
