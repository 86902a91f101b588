//! A reader that gathers what GGUF input says.

use crate::bytes::{get_u32, get_u64, ByteReader};
use crate::gguf::error::{FilePart, GgufError};
use crate::gguf::metadata::{
    copy_metadata, copy_tensors, shape_fits, shape_product, tensor_views, MetadataView,
    ModelMetadata, TensorInfo, TensorView,
};
use crate::gguf::scan::{
    alignment_of, file_outcome, read_entries, read_tensor_table, scan_file, stated_alignment, Fault,
};
use crate::gguf::stream;
use crate::gguf::stream::{stream_entries, stream_header, stream_tensors};
use crate::gguf::types::{
    blocks_for, version_is_read, GgufByteOrder, GGUF_MAGIC,
};
use crate::gguf::value::{GgufValue, ValueView};
use crate::names::NameMap;
use vstd::prelude::*;

verus! {

/// The state of reading: what has been read so far.
#[derive(Debug)]
pub struct GgufReader {
    pub(crate) byte_order: GgufByteOrder,
    pub(crate) version: u32,
    pub(crate) metadata: NameMap<GgufValue>,
    pub(crate) tensors: Vec<TensorInfo>,
    pub(crate) tensor_count: u64,
    pub(crate) kv_count: u64,
}

/// What a reader has read so far.
#[verifier::ext_equal]
pub struct ReaderView {
    pub version: u32,
    pub tensor_count: u64,
    pub kv_count: u64,
    pub metadata: Map<Seq<char>, ValueView>,
    pub tensors: Seq<TensorView>,
}

impl View for GgufReader {
    type V = ReaderView;

    closed spec fn view(&self) -> ReaderView {
        ReaderView {
            version: self.version,
            tensor_count: self.tensor_count,
            kv_count: self.kv_count,
            metadata: self.metadata@,
            tensors: tensor_views(self.tensors@),
        }
    }
}

/// What a whole stream does to a reader, what it says, and what it leaves.
pub open spec fn stream_file(s: Seq<u8>, before: ReaderView) -> (
    ReaderView,
    Result<MetadataView, GgufError>,
    Seq<u8>,
) {
    let (a, header, rest1) = stream_header(s, before);
    match header {
        Err(e) => (a, Err(e), rest1),
        Ok(()) => {
            let (metadata, entries, rest2) = stream_entries(rest1, a.kv_count as nat, a.metadata);
            let b = ReaderView { metadata, ..a };
            match entries {
                Err(e) => (b, Err(e), rest2),
                Ok(()) => {
                    let (tensors, table, rest3) = stream_tensors(
                        rest2,
                        b.tensor_count as nat,
                        b.tensors,
                    );
                    let c = ReaderView { tensors, ..b };
                    match table {
                        Err(e) => (c, Err(e), rest3),
                        Ok(()) => (
                            c,
                            Ok(
                                MetadataView {
                                    version: c.version,
                                    tensor_count: c.tensor_count,
                                    kv_count: c.kv_count,
                                    alignment: stated_alignment(metadata),
                                    tensor_data_offset: 0,
                                    metadata,
                                    tensors,
                                },
                            ),
                            rest3,
                        ),
                    }
                },
            }
        },
    }
}

impl Default for GgufReader {
    fn default() -> (r: Self)
        ensures
            r@ == empty_reader(),
    {
        Self::new()
    }
}

/// A reader that has read nothing.
pub open spec fn empty_reader() -> ReaderView {
    ReaderView {
        version: 0,
        tensor_count: 0,
        kv_count: 0,
        metadata: Map::empty(),
        tensors: Seq::empty(),
    }
}

impl GgufReader {
    pub fn new() -> (r: Self)
        ensures
            r@ == empty_reader(),
    {
        let r = GgufReader {
            byte_order: GgufByteOrder::LittleEndian,
            version: 0,
            metadata: NameMap::new(),
            tensors: Vec::new(),
            tensor_count: 0,
            kv_count: 0,
        };
        assert(tensor_views(r.tensors@) =~= Seq::empty());
        r
    }

    /// Reads the fixed start of a stream.
    pub fn read_header(&mut self, reader: &mut ByteReader) -> (r: Result<(), GgufError>)
        requires
            old(reader).wf(),
        ensures
            final(reader).wf(),
            final(reader).bytes == old(reader).bytes,
            (final(self)@, r, final(reader).rest()) == stream_header(
                old(reader).rest(),
                old(self)@,
            ),
    {
        let ghost s = reader.rest();
        match self.byte_order.validate(reader) {
            Ok(()) => {},
            Err(e) => {
                return Err(e);
            },
        }
        match self.byte_order.read_u32(reader) {
            Ok(version) => {
                self.version = version;
            },
            Err(e) => {
                return Err(e);
            },
        }
        assert(reader.rest() =~= s.skip(8));
        if !version_is_read(self.version) {
            return Err(GgufError::UnsupportedStreamVersion(self.version));
        }
        match self.byte_order.read_u64(reader) {
            Ok(n) => {
                self.tensor_count = n;
            },
            Err(e) => {
                return Err(e);
            },
        }
        assert(reader.rest() =~= s.skip(16));
        match self.byte_order.read_u64(reader) {
            Ok(n) => {
                self.kv_count = n;
            },
            Err(e) => {
                return Err(e);
            },
        }
        assert(reader.rest() =~= s.skip(24));
        Ok(())
    }

    /// Reads as many metadata entries as the header announced.
    pub fn read_metadata(&mut self, reader: &mut ByteReader) -> (r: Result<(), GgufError>)
        requires
            old(reader).wf(),
        ensures
            final(reader).wf(),
            final(reader).bytes == old(reader).bytes,
            ({
                let (metadata, outcome, rest) = stream_entries(
                    old(reader).rest(),
                    old(self)@.kv_count as nat,
                    old(self)@.metadata,
                );
                &&& final(self)@ == ReaderView { metadata, ..old(self)@ }
                &&& r == outcome
                &&& final(reader).rest() == rest
            }),
    {
        let bo = self.byte_order;
        stream::read_entries(&mut self.metadata, reader, self.kv_count, &bo)
    }

    /// Reads as many tensor descriptions as the header announced.
    pub fn read_tensors(&mut self, reader: &mut ByteReader) -> (r: Result<(), GgufError>)
        requires
            old(reader).wf(),
        ensures
            final(reader).wf(),
            final(reader).bytes == old(reader).bytes,
            ({
                let (tensors, outcome, rest) = stream_tensors(
                    old(reader).rest(),
                    old(self)@.tensor_count as nat,
                    old(self)@.tensors,
                );
                &&& final(self)@ == ReaderView { tensors, ..old(self)@ }
                &&& r == outcome
                &&& final(reader).rest() == rest
            }),
    {
        let bo = self.byte_order;
        stream::read_tensor_table(&mut self.tensors, reader, self.tensor_count, &bo)
    }

    /// Reads header, metadata and tensor descriptions.
    pub fn parse(&mut self, reader: &mut ByteReader) -> (r: Result<ModelMetadata, GgufError>)
        requires
            old(reader).wf(),
        ensures
            final(reader).wf(),
            final(reader).bytes == old(reader).bytes,
            ({
                let (after, outcome, rest) = stream_file(old(reader).rest(), old(self)@);
                &&& final(self)@ == after
                &&& final(reader).rest() == rest
                &&& match r {
                    Ok(m) => outcome == Ok::<MetadataView, GgufError>(m@),
                    Err(e) => outcome == Err::<MetadataView, GgufError>(e),
                }
            }),
    {
        match self.read_header(reader) {
            Ok(()) => {},
            Err(e) => {
                return Err(e);
            },
        }
        match self.read_metadata(reader) {
            Ok(()) => {},
            Err(e) => {
                return Err(e);
            },
        }
        match self.read_tensors(reader) {
            Ok(()) => {},
            Err(e) => {
                return Err(e);
            },
        }
        Ok(
            ModelMetadata {
                version: self.version,
                tensor_count: self.tensor_count,
                kv_count: self.kv_count,
                byte_order: self.byte_order,
                alignment: alignment_of(&self.metadata),
                tensor_data_offset: 0,
                metadata: copy_metadata(&self.metadata),
                tensors: copy_tensors(&self.tensors),
            },
        )
    }

    /// Where the last tensor's data ends, counted from the start of the first.
    pub fn tensor_data_offset(&self) -> (r: u64)
        requires
            self@.tensors.len() > 0 ==> {
                let last = self@.tensors.last();
                &&& shape_fits(last.shape)
                &&& last.data_type.spec_bytes(shape_product(last.shape)) <= usize::MAX
                &&& last.offset + last.data_type.spec_bytes(shape_product(last.shape)) <= u64::MAX
            },
        ensures
            r == if self@.tensors.len() == 0 {
                0
            } else {
                let last = self@.tensors.last();
                last.offset + last.data_type.spec_bytes(shape_product(last.shape))
            },
    {
        let n: usize = self.tensors.len();
        if n == 0 {
            return 0;
        }
        let last = &self.tensors[n - 1];
        assert(last@ == self@.tensors.last());
        last.offset + last.data_size() as u64
    }

    /// How many tensor descriptions have been read.
    pub fn tensor_count(&self) -> (r: usize)
        ensures
            r == self@.tensors.len(),
    {
        self.tensors.len()
    }

    /// The metadata read so far.
    pub fn metadata(&self) -> (r: &NameMap<GgufValue>)
        ensures
            r@ == self@.metadata,
    {
        &self.metadata
    }

    /// The tensor descriptions read so far.
    pub fn tensors(&self) -> (r: &[TensorInfo])
        ensures
            tensor_views(r@) == self@.tensors,
    {
        self.tensors.as_slice()
    }

    /// Reads a file in memory. Entries and tensors are added to those that the
    /// reader holds.
    pub fn scan_bytes(&mut self, data: &[u8]) -> (r: Result<ModelMetadata, Fault>)
        ensures
            final(self)@ == scan_file(data@, old(self)@).0,
            file_outcome(r) == scan_file(data@, old(self)@).1,
    {
        if data.len() < 8 || get_u32(data, 0) != GGUF_MAGIC {
            return Err(Fault::Refused(GgufError::InvalidMagic));
        }
        let version: u32 = get_u32(data, 4);
        if !version_is_read(version) {
            return Err(Fault::Refused(GgufError::UnsupportedVersion(version)));
        }
        if data.len() < 16 {
            return Err(Fault::Refused(GgufError::Truncated(FilePart::TensorCount)));
        }
        let tensor_count: u64 = get_u64(data, 8);
        if data.len() < 24 {
            return Err(Fault::Refused(GgufError::Truncated(FilePart::KvCount)));
        }
        let kv_count: u64 = get_u64(data, 16);
        self.tensor_count = tensor_count;
        self.kv_count = kv_count;
        self.version = version;
        let entries_end: usize = match read_entries(&mut self.metadata, data, 24, kv_count) {
            Ok(p) => p,
            Err(f) => {
                return Err(f);
            },
        };
        let end: usize = match read_tensor_table(
            &mut self.tensors,
            data,
            entries_end,
            tensor_count,
        ) {
            Ok(p) => p,
            Err(f) => {
                return Err(f);
            },
        };
        let stated: usize = alignment_of(&self.metadata);
        let alignment: usize = if stated == 0 {
            1
        } else {
            stated
        };
        let offset: usize = match blocks_for(end, alignment).checked_mul(alignment) {
            Some(x) => x,
            None => {
                return Err(Fault::Overrun);
            },
        };
        Ok(
            ModelMetadata {
                version,
                tensor_count,
                kv_count,
                byte_order: GgufByteOrder::LittleEndian,
                alignment,
                tensor_data_offset: offset as u64,
                metadata: copy_metadata(&self.metadata),
                tensors: copy_tensors(&self.tensors),
            },
        )
    }

    /// Reads a file in memory whose values do not reach beyond its end.
    pub fn parse_from_bytes(&mut self, data: &[u8]) -> (r: Result<ModelMetadata, GgufError>)
        requires
            scan_file(data@, old(self)@).1 != Err::<MetadataView, Fault>(Fault::Overrun),
        ensures
            final(self)@ == scan_file(data@, old(self)@).0,
            match r {
                Ok(m) => scan_file(data@, old(self)@).1 == Ok::<MetadataView, Fault>(m@),
                Err(e) => scan_file(data@, old(self)@).1 == Err::<MetadataView, Fault>(
                    Fault::Refused(e),
                ),
            },
    {
        match self.scan_bytes(data) {
            Ok(m) => Ok(m),
            Err(Fault::Refused(e)) => Err(e),
            Err(Fault::Overrun) => vstd::pervasive::unreached(),
        }
    }
}

} // verus!
