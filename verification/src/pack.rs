//! `.llmpk` expert pack: the on-disk layout experts are paged from.
//!
//! Layout (little-endian, all sections 4096-byte aligned):
//!
//! ```text
//! [0..4096)    header: magic "LLMPK1\0\0", u32 version, u32 json_len,
//!              then `json_len` bytes of JSON metadata, zero-padded
//! [4096..)     index: one IndexEntry per (layer, expert), row-major by
//!              layer then expert, zero-padded to a 4096 boundary
//! [...]        blobs: each expert's weight bytes, each starting on a
//!              4096 boundary
//! ```
//!
//! Alignment matters: O_DIRECT requires file offset, buffer address, and
//! length all aligned to the logical block size (512 or 4096; we use 4096
//! everywhere and read in whole aligned spans).

use crate::bytes::{
    law_le_bytes_of_value, law_le_round_trip, le_bytes, le_value, lemma_le_bytes_len,
    lemma_span_values, push_bytes, push_le, push_zeros, read_le, zeros,
};
use vstd::prelude::*;

verus! {

pub const MAGIC: [u8; 8] = [76, 76, 77, 80, 75, 49, 0, 0];

pub const FORMAT_VERSION: u32 = 1;

pub const ALIGN: u64 = 4096;

pub const INDEX_ENTRY_BYTES: u64 = 16;

#[derive(Debug, Clone, PartialEq, Eq)]
pub struct PackMeta {
    pub model: String,
    pub num_layers: u16,
    pub experts_per_layer: u16,
    /// Weight encoding of the blobs, e.g. "q4_gs64" (informational for now).
    pub dtype: String,
}

impl PackMeta {
    /// How many blobs the pack holds.
    pub open spec fn spec_total(self) -> nat {
        (self.num_layers * self.experts_per_layer) as nat
    }

    /// How many blobs the pack holds.
    pub fn total(&self) -> (n: u64)
        ensures
            n == self.spec_total(),
            n <= 0xfffe_0001,
    {
        assert(0 <= self.num_layers * self.experts_per_layer <= 0xfffe_0001) by (nonlinear_arith)
            requires
                0 <= self.num_layers <= 0xffff,
                0 <= self.experts_per_layer <= 0xffff,
        ;
        self.num_layers as u64 * self.experts_per_layer as u64
    }
}

#[derive(Debug, Clone, Copy)]
pub struct IndexEntry {
    pub offset: u64,
    pub nbytes: u64,
}

/// Why a pack cannot be written or read.
#[derive(Debug, Clone, Copy, PartialEq, Eq, Structural)]
pub enum PackError {
    /// The pack already has all `total` blobs.
    Full { total: u64 },
    /// Only `written` of `total` blobs were added.
    Incomplete { written: u64, total: u64 },
    /// The metadata JSON does not fit in the header block.
    MetadataTooLarge,
    /// The file does not start with the magic.
    NotAPack,
    /// The file is of another format version.
    UnsupportedVersion(u32),
    /// The header announces more metadata than its block can hold.
    HeaderOverrun { json_len: u64 },
    /// The buffer cannot hold the blob's aligned span.
    BufferTooSmall { len: u64 },
    /// A direct read needs a buffer at a 4096-byte boundary.
    Unaligned,
}

/// `v` rounded up to whole blocks.
pub open spec fn aligned(v: nat) -> nat {
    (v + (ALIGN - 1) as nat) / (ALIGN as nat) * (ALIGN as nat)
}

/// Where the first blob of a pack with `total` blobs starts.
pub open spec fn data_start(total: nat) -> nat {
    aligned(ALIGN as nat + total * INDEX_ENTRY_BYTES as nat)
}

/// Where blob `i` starts, in a pack with `total` blobs of lengths `lens`.
pub open spec fn blob_offset(total: nat, lens: Seq<nat>, i: nat) -> nat
    decreases i,
{
    if i == 0 {
        data_start(total)
    } else {
        blob_offset(total, lens, (i - 1) as nat) + aligned(lens[i - 1])
    }
}

/// The header block: magic, version, length of the metadata, the metadata,
/// zeros up to a whole block.
pub open spec fn header_block(json: Seq<u8>) -> Seq<u8> {
    MAGIC@ + le_bytes(FORMAT_VERSION as nat, 4) + le_bytes(json.len(), 4) + json + zeros(
        (ALIGN - 16 - json.len()) as nat,
    )
}

/// The index of the first `n` blobs: offset and length of each.
pub open spec fn index_bytes(total: nat, lens: Seq<nat>, n: nat) -> Seq<u8>
    decreases n,
{
    if n == 0 {
        Seq::empty()
    } else {
        index_bytes(total, lens, (n - 1) as nat) + le_bytes(
            blob_offset(total, lens, (n - 1) as nat),
            8,
        ) + le_bytes(lens[n - 1], 8)
    }
}

/// Everything in front of the blobs.
pub open spec fn pack_front(json: Seq<u8>, total: nat, lens: Seq<nat>) -> Seq<u8> {
    header_block(json) + index_bytes(total, lens, total) + zeros(
        (data_start(total) - ALIGN - total * INDEX_ENTRY_BYTES) as nat,
    )
}

/// A blob and the zeros that fill its last block.
pub open spec fn padded(blob: Seq<u8>) -> Seq<u8> {
    blob + zeros((aligned(blob.len()) - blob.len()) as nat)
}

/// The lengths of the given blobs.
pub open spec fn lens_of(blobs: Seq<Seq<u8>>) -> Seq<nat> {
    Seq::new(blobs.len(), |i: int| blobs[i].len())
}

/// The padded blobs, one after the other.
pub open spec fn blob_area(blobs: Seq<Seq<u8>>) -> Seq<u8>
    decreases blobs.len(),
{
    if blobs.len() == 0 {
        Seq::empty()
    } else {
        blob_area(blobs.drop_last()) + padded(blobs.last())
    }
}

/// A whole pack file with metadata `json` and the given blobs.
pub open spec fn pack_image(json: Seq<u8>, blobs: Seq<Seq<u8>>) -> Seq<u8> {
    pack_front(json, blobs.len(), lens_of(blobs)) + blob_area(blobs)
}

/// The metadata in a header block.
pub open spec fn header_metadata(block: Seq<u8>) -> Result<Seq<u8>, PackError> {
    let version = le_value(block.subrange(8, 12));
    let json_len = le_value(block.subrange(12, 16));
    if block.take(8) != MAGIC@ {
        Err(PackError::NotAPack)
    } else if version != FORMAT_VERSION {
        Err(PackError::UnsupportedVersion(version as u32))
    } else if json_len > block.len() - 16 {
        Err(PackError::HeaderOverrun { json_len: json_len as u64 })
    } else {
        Ok(block.subrange(16, 16 + json_len as int))
    }
}

/// Entry `i` of an index section.
pub open spec fn index_entry(raw: Seq<u8>, i: int) -> (nat, nat) {
    (
        le_value(raw.subrange(16 * i, 16 * i + 8)),
        le_value(raw.subrange(16 * i + 8, 16 * i + 16)),
    )
}

pub proof fn lemma_aligned(v: nat)
    ensures
        v <= aligned(v) < v + ALIGN,
        aligned(v) % (ALIGN as nat) == 0,
{
}

/// `v` rounded up to whole blocks.
pub fn align_up(v: u64) -> (up: u64)
    requires
        aligned(v as nat) <= u64::MAX,
    ensures
        up == aligned(v as nat),
{
    if v % ALIGN == 0 {
        v
    } else {
        (v / ALIGN + 1) * ALIGN
    }
}

/// Streaming writer: declare metadata up front, append blobs in row-major
/// (layer, expert) order, then `finish()`. It hands back the bytes to write
/// and keeps the index.
#[derive(Debug)]
pub struct PackWriter {
    meta: PackMeta,
    index: Vec<IndexEntry>,
    index_end: u64,
    cursor: u64,
}

impl PackWriter {
    pub closed spec fn spec_meta(self) -> PackMeta {
        self.meta
    }

    /// The lengths of the blobs added so far.
    pub closed spec fn lens(self) -> Seq<nat> {
        Seq::new(self.index@.len(), |i: int| self.index@[i].nbytes as nat)
    }

    pub closed spec fn wf(self) -> bool {
        let total = self.meta.spec_total();
        &&& self.index@.len() <= total
        &&& self.index_end == data_start(total)
        &&& self.cursor == blob_offset(total, self.lens(), self.index@.len())
        &&& forall|i: int|
            0 <= i < self.index@.len() ==> (#[trigger] self.index@[i]).offset == blob_offset(
                total,
                self.lens(),
                i as nat,
            )
    }

    /// Where the next blob goes in the file.
    pub open spec fn next(self) -> nat {
        blob_offset(self.spec_meta().spec_total(), self.lens(), self.lens().len())
    }

    /// Adding `blob` hands back `bytes` and leaves `after`.
    pub open spec fn adds(self, blob: Seq<u8>, bytes: Seq<u8>, after: PackWriter) -> bool {
        &&& self.lens().len() < self.spec_meta().spec_total()
        &&& after.spec_meta() == self.spec_meta()
        &&& after.lens() == self.lens().push(blob.len())
        &&& bytes == padded(blob)
    }

    pub fn create(meta: PackMeta) -> (writer: Self)
        ensures
            writer.wf(),
            writer.spec_meta() == meta,
            writer.lens() == Seq::<nat>::empty(),
    {
        let total: u64 = meta.total();
        let index_end: u64 = align_up(ALIGN + total * INDEX_ENTRY_BYTES);
        let writer = Self { meta, index: Vec::new(), index_end, cursor: index_end };
        assert(writer.lens() =~= Seq::<nat>::empty());
        writer
    }

    /// Where the next blob goes in the file.
    pub fn position(&self) -> (at: u64)
        requires
            self.wf(),
        ensures
            at == self.next(),
    {
        self.cursor
    }

    /// Append the next expert's blob. Call exactly layers*experts times, in
    /// row-major (layer, expert) order. The bytes handed back go to the file
    /// at `position()` as it was before the call.
    pub fn add_blob(&mut self, blob: &[u8]) -> (written: Result<Vec<u8>, PackError>)
        requires
            old(self).wf(),
            old(self).next() + aligned(blob@.len()) <= u64::MAX,
        ensures
            final(self).wf(),
            final(self).spec_meta() == old(self).spec_meta(),
            match written {
                Ok(bytes) => old(self).adds(blob@, bytes@, *final(self)),
                Err(e) => {
                    &&& old(self).lens().len() == old(self).spec_meta().spec_total()
                    &&& e == (PackError::Full { total: old(self).spec_meta().spec_total() as u64 })
                    &&& *final(self) == *old(self)
                },
            },
    {
        let total: u64 = self.meta.total();
        if self.index.len() as u64 == total {
            return Err(PackError::Full { total });
        }
        let len: u64 = blob.len() as u64;
        proof {
            lemma_aligned(len as nat);
        }
        let up: u64 = align_up(len);
        let ghost lens = self.lens();
        let ghost count = self.index@.len();
        self.index.push(IndexEntry { offset: self.cursor, nbytes: len });
        let mut bytes: Vec<u8> = Vec::new();
        push_bytes(&mut bytes, blob);
        push_zeros(&mut bytes, up - len);
        self.cursor += up;
        proof {
            assert(bytes@ =~= padded(blob@));
            assert(self.lens() =~= lens.push(len as nat));
            lemma_offset_prefix(total as nat, lens, self.lens(), count);
            assert forall|i: int| 0 <= i < self.index@.len() implies (#[trigger] self.index@[i]).offset
                == blob_offset(total as nat, self.lens(), i as nat) by {
                lemma_offset_prefix(total as nat, lens, self.lens(), i as nat);
                if i < count {
                    assert(self.index@[i] == old(self).index@[i]);
                }
            }
        }
        Ok(bytes)
    }

    /// Closes the pack: hands back what goes in front of the blobs, the
    /// header that holds the metadata `json` and the index.
    pub fn finish(self, json: &[u8]) -> (front: Result<Vec<u8>, PackError>)
        requires
            self.wf(),
        ensures
            match front {
                Ok(bytes) => {
                    &&& self.lens().len() == self.spec_meta().spec_total()
                    &&& json@.len() <= ALIGN - 16
                    &&& bytes@ == pack_front(json@, self.spec_meta().spec_total(), self.lens())
                },
                Err(PackError::Incomplete { written, total }) => {
                    &&& self.lens().len() != self.spec_meta().spec_total()
                    &&& written == self.lens().len()
                    &&& total == self.spec_meta().spec_total()
                },
                Err(e) => {
                    &&& self.lens().len() == self.spec_meta().spec_total()
                    &&& json@.len() > ALIGN - 16
                    &&& e == PackError::MetadataTooLarge
                },
            },
    {
        let total: u64 = self.meta.total();
        let written: u64 = self.index.len() as u64;
        if written != total {
            return Err(PackError::Incomplete { written, total });
        }
        if json.len() as u64 > ALIGN - 16 {
            return Err(PackError::MetadataTooLarge);
        }
        let mut out: Vec<u8> = Vec::new();
        let mut m: usize = 0;
        while m < 8
            invariant
                m <= 8,
                out@ == MAGIC@.take(m as int),
            decreases 8 - m,
        {
            out.push(MAGIC[m]);
            m += 1;
            assert(out@ =~= MAGIC@.take(m as int));
        }
        assert(MAGIC@.take(8) =~= MAGIC@);
        push_le(&mut out, FORMAT_VERSION as u64, 4);
        push_le(&mut out, json.len() as u64, 4);
        push_bytes(&mut out, json);
        push_zeros(&mut out, ALIGN - 16 - json.len() as u64);
        assert(out@ =~= header_block(json@));
        let mut i: usize = 0;
        assert(out@ =~= header_block(json@) + index_bytes(total as nat, self.lens(), 0));
        while i < self.index.len()
            invariant
                self.wf(),
                total == self.meta.spec_total(),
                i <= self.index@.len(),
                out@ == header_block(json@) + index_bytes(total as nat, self.lens(), i as nat),
            decreases self.index@.len() - i,
        {
            let e: IndexEntry = self.index[i];
            let ghost before = out@;
            push_le(&mut out, e.offset, 8);
            push_le(&mut out, e.nbytes, 8);
            i += 1;
            assert(self.lens()[i - 1] == e.nbytes as nat);
            assert(out@ =~= header_block(json@) + index_bytes(
                total as nat,
                self.lens(),
                i as nat,
            ));
        }
        proof {
            lemma_aligned(ALIGN as nat + total as nat * 16);
        }
        push_zeros(&mut out, self.index_end - ALIGN - total * INDEX_ENTRY_BYTES);
        assert(out@ =~= pack_front(json@, total as nat, self.lens()));
        Ok(out)
    }
}

/// Offsets depend only on the lengths of the blobs before.
pub proof fn lemma_offset_prefix(total: nat, a: Seq<nat>, b: Seq<nat>, n: nat)
    requires
        n <= a.len(),
        n <= b.len(),
        forall|j: int| 0 <= j < n ==> a[j] == b[j],
    ensures
        blob_offset(total, a, n) == blob_offset(total, b, n),
    decreases n,
{
    if n > 0 {
        lemma_offset_prefix(total, a, b, (n - 1) as nat);
    }
}

/// One blob's place in the file: read `span` bytes at `offset`, of which the
/// first `nbytes` are the blob.
#[derive(Debug, Clone, Copy)]
pub struct BlobRead {
    pub offset: u64,
    pub span: u64,
    pub nbytes: u64,
}

/// Read side: the full index in memory (16 bytes per expert — ~100KB even
/// for large MoEs).
#[derive(Debug)]
pub struct PackReader {
    meta: PackMeta,
    index: Vec<IndexEntry>,
    direct: bool,
}

impl PackReader {
    pub closed spec fn spec_meta(self) -> PackMeta {
        self.meta
    }

    pub closed spec fn spec_direct(self) -> bool {
        self.direct
    }

    /// Offset and length of every blob.
    pub closed spec fn entries(self) -> Seq<IndexEntry> {
        self.index@
    }

    pub open spec fn wf(self) -> bool {
        self.entries().len() == self.spec_meta().spec_total()
    }

    /// The reader holds the index of a pack as the section `raw` has it.
    pub open spec fn indexes(self, meta: PackMeta, raw: Seq<u8>) -> bool {
        &&& self.wf()
        &&& self.spec_meta() == meta
        &&& forall|i: int|
            #![trigger self.entries()[i]]
            0 <= i < meta.spec_total() ==> index_entry(raw, i) == (
                self.entries()[i].offset as nat,
                self.entries()[i].nbytes as nat,
            )
    }

    /// Where an expert stands in the index.
    pub open spec fn row(self, layer: u16, expert: u16) -> int {
        layer * self.spec_meta().experts_per_layer + expert
    }

    /// The answer to a request to read an expert's blob into a buffer of `len`
    /// bytes at `addr`.
    pub open spec fn answers(
        self,
        layer: u16,
        expert: u16,
        len: u64,
        addr: u64,
        read: Result<BlobRead, PackError>,
    ) -> bool {
        let e = self.entries()[self.row(layer, expert)];
        if len < aligned(e.nbytes as nat) {
            read == Err::<BlobRead, PackError>(PackError::BufferTooSmall { len })
        } else if self.spec_direct() && addr % ALIGN != 0 {
            read == Err::<BlobRead, PackError>(PackError::Unaligned)
        } else {
            read == Ok::<BlobRead, PackError>(
                BlobRead {
                    offset: e.offset,
                    span: aligned(e.nbytes as nat) as u64,
                    nbytes: e.nbytes,
                },
            )
        }
    }

    /// The metadata that a pack's first block announces.
    pub fn header_json(block: &[u8]) -> (json: Result<&[u8], PackError>)
        requires
            block@.len() >= 16,
        ensures
            match json {
                Ok(json) => header_metadata(block@) == Ok::<Seq<u8>, PackError>(json@),
                Err(e) => header_metadata(block@) == Err::<Seq<u8>, PackError>(e),
            },
    {
        proof {
            law_le_bytes_of_value(block@.subrange(8, 12));
            law_le_bytes_of_value(block@.subrange(12, 16));
            lemma_span_values();
        }
        let mut i: usize = 0;
        while i < 8
            invariant
                i <= 8 <= block@.len(),
                forall|j: int| 0 <= j < i ==> block@[j] == MAGIC@[j],
            decreases 8 - i,
        {
            if block[i] != MAGIC[i] {
                assert(block@.take(8)[i as int] == block@[i as int]);
                return Err(PackError::NotAPack);
            }
            i += 1;
        }
        assert(block@.take(8) =~= MAGIC@);
        let version: u64 = read_le(block, 8, 4);
        if version != FORMAT_VERSION as u64 {
            return Err(PackError::UnsupportedVersion(version as u32));
        }
        let json_len: u64 = read_le(block, 12, 4);
        if json_len > (block.len() - 16) as u64 {
            return Err(PackError::HeaderOverrun { json_len });
        }
        let (_, rest) = block.split_at(16);
        let (json, _) = rest.split_at(json_len as usize);
        assert(json@ =~= block@.subrange(16, 16 + json_len));
        Ok(json)
    }

    /// How many bytes to read behind the header block for the index.
    pub fn index_span(meta: &PackMeta) -> (span: u64)
        ensures
            span == aligned(meta.spec_total() * 16),
    {
        let total: u64 = meta.total();
        align_up(total * INDEX_ENTRY_BYTES)
    }

    /// Open with the OS page cache (portable; used by tests and tools).
    /// `raw` is the index section.
    pub fn open(meta: PackMeta, raw: &[u8]) -> (reader: Self)
        requires
            raw@.len() >= meta.spec_total() * 16,
        ensures
            reader.indexes(meta, raw@),
            !reader.spec_direct(),
    {
        Self::open_inner(meta, raw, false)
    }

    /// Open with O_DIRECT (Linux): reads bypass the page cache, which is what
    /// the pager wants — cached experts live in VRAM, not in host RAM twice.
    pub fn open_direct(meta: PackMeta, raw: &[u8]) -> (reader: Self)
        requires
            raw@.len() >= meta.spec_total() * 16,
        ensures
            reader.indexes(meta, raw@),
            reader.spec_direct(),
    {
        Self::open_inner(meta, raw, true)
    }

    fn open_inner(meta: PackMeta, raw: &[u8], direct: bool) -> (reader: Self)
        requires
            raw@.len() >= meta.spec_total() * 16,
        ensures
            reader.indexes(meta, raw@),
            reader.spec_direct() == direct,
    {
        let total: u64 = meta.total();
        let len: usize = raw.len();
        let mut index: Vec<IndexEntry> = Vec::new();
        let mut i: u64 = 0;
        while i < total
            invariant
                i <= total,
                total * 16 <= len,
                len == raw@.len(),
                index@.len() == i,
                forall|j: int|
                    #![trigger index@[j]]
                    0 <= j < i ==> index_entry(raw@, j) == (
                        index@[j].offset as nat,
                        index@[j].nbytes as nat,
                    ),
            decreases total - i,
        {
            let at: usize = (i * 16) as usize;
            let offset: u64 = read_le(raw, at, 8);
            let nbytes: u64 = read_le(raw, at + 8, 8);
            index.push(IndexEntry { offset, nbytes });
            i += 1;
        }
        Self { meta, index, direct }
    }

    pub fn meta(&self) -> (meta: &PackMeta)
        ensures
            *meta == self.spec_meta(),
    {
        &self.meta
    }

    pub fn entry(&self, layer: u16, expert: u16) -> (entry: IndexEntry)
        requires
            self.wf(),
            self.row(layer, expert) < self.spec_meta().spec_total(),
        ensures
            entry == self.entries()[self.row(layer, expert)],
    {
        let n: u16 = self.meta.experts_per_layer;
        assert(0 <= layer * n <= 0xffff * 0xffff) by (nonlinear_arith)
            requires
                0 <= layer <= 0xffff,
                0 <= n <= 0xffff,
        ;
        self.index[layer as usize * n as usize + expert as usize]
    }

    /// Largest blob in the pack — sizes fetch buffers.
    pub fn max_blob_bytes(&self) -> (max: u64)
        ensures
            forall|i: int|
                #![trigger self.entries()[i]]
                0 <= i < self.entries().len() ==> self.entries()[i].nbytes <= max,
            self.entries().len() == 0 ==> max == 0,
            self.entries().len() > 0 ==> exists|i: int|
                #![trigger self.entries()[i]]
                0 <= i < self.entries().len() && self.entries()[i].nbytes == max,
    {
        let mut max: u64 = 0;
        let mut i: usize = 0;
        while i < self.index.len()
            invariant
                i <= self.index@.len(),
                self.entries() == self.index@,
                forall|j: int|
                    #![trigger self.entries()[j]]
                    0 <= j < i ==> self.entries()[j].nbytes <= max,
                i == 0 ==> max == 0,
                i > 0 ==> exists|j: int|
                    #![trigger self.entries()[j]]
                    0 <= j < i && self.entries()[j].nbytes == max,
            decreases self.index@.len() - i,
        {
            let n: u64 = self.index[i].nbytes;
            if i == 0 || n > max {
                max = n;
                assert(self.entries()[i as int].nbytes == max);
            }
            i += 1;
        }
        max
    }

    /// Where to read one expert's blob from.
    ///
    /// The buffer must hold at least `align_up(entry.nbytes)` bytes and, when
    /// the pack was opened with O_DIRECT, must start at a multiple of 4096.
    pub fn read_blob_into(&self, layer: u16, expert: u16, len: u64, addr: u64) -> (read: Result<
        BlobRead,
        PackError,
    >)
        requires
            self.wf(),
            self.row(layer, expert) < self.spec_meta().spec_total(),
        ensures
            self.answers(layer, expert, len, addr, read),
    {
        let e: IndexEntry = self.entry(layer, expert);
        proof {
            lemma_aligned(e.nbytes as nat);
        }
        if e.nbytes > len {
            return Err(PackError::BufferTooSmall { len });
        }
        if e.nbytes > u64::MAX / ALIGN * ALIGN {
            return Err(PackError::BufferTooSmall { len });
        }
        let span: u64 = align_up(e.nbytes);
        if len < span {
            return Err(PackError::BufferTooSmall { len });
        }
        if self.direct && addr % ALIGN != 0 {
            return Err(PackError::Unaligned);
        }
        Ok(BlobRead { offset: e.offset, span, nbytes: e.nbytes })
    }
}

proof fn lemma_header_block(json: Seq<u8>)
    requires
        json.len() <= ALIGN - 16,
    ensures
        header_block(json).len() == ALIGN,
        header_metadata(header_block(json)) == Ok::<Seq<u8>, PackError>(json),
{
    let b = header_block(json);
    lemma_span_values();
    law_le_round_trip(FORMAT_VERSION as nat, 4);
    law_le_round_trip(json.len(), 4);
    assert(MAGIC@.len() == 8);
    assert(b.take(8) =~= MAGIC@);
    assert(b.subrange(8, 12) =~= le_bytes(FORMAT_VERSION as nat, 4));
    assert(b.subrange(12, 16) =~= le_bytes(json.len(), 4));
    assert(b.subrange(16, 16 + json.len() as int) =~= json);
}

proof fn lemma_index_len(total: nat, lens: Seq<nat>, n: nat)
    ensures
        index_bytes(total, lens, n).len() == 16 * n,
    decreases n,
{
    if n > 0 {
        lemma_index_len(total, lens, (n - 1) as nat);
        lemma_le_bytes_len(blob_offset(total, lens, (n - 1) as nat), 8);
        lemma_le_bytes_len(lens[n - 1], 8);
    }
}

proof fn lemma_index_bytes(total: nat, lens: Seq<nat>, n: nat, i: int)
    requires
        0 <= i < n,
    ensures
        index_bytes(total, lens, n).len() == 16 * n,
        index_bytes(total, lens, n).subrange(16 * i, 16 * i + 8) == le_bytes(
            blob_offset(total, lens, i as nat),
            8,
        ),
        index_bytes(total, lens, n).subrange(16 * i + 8, 16 * i + 16) == le_bytes(lens[i], 8),
    decreases n,
{
    let m = (n - 1) as nat;
    let a = le_bytes(blob_offset(total, lens, m), 8);
    let b = le_bytes(lens[n - 1], 8);
    let t = index_bytes(total, lens, m);
    let s = index_bytes(total, lens, n);
    lemma_index_len(total, lens, m);
    lemma_le_bytes_len(blob_offset(total, lens, m), 8);
    lemma_le_bytes_len(lens[n - 1], 8);
    assert(s == t + a + b);
    if i < m {
        lemma_index_bytes(total, lens, m, i);
        assert(s.subrange(16 * i, 16 * i + 8) =~= t.subrange(16 * i, 16 * i + 8));
        assert(s.subrange(16 * i + 8, 16 * i + 16) =~= t.subrange(16 * i + 8, 16 * i + 16));
    } else {
        assert(s.subrange(16 * i, 16 * i + 8) =~= a);
        assert(s.subrange(16 * i + 8, 16 * i + 16) =~= b);
    }
}

pub proof fn lemma_blob_area(total: nat, blobs: Seq<Seq<u8>>)
    ensures
        blob_area(blobs).len() + data_start(total) == blob_offset(
            total,
            lens_of(blobs),
            blobs.len(),
        ),
        forall|i: int|
            #![trigger blobs[i]]
            0 <= i < blobs.len() ==> {
                let at = blob_offset(total, lens_of(blobs), i as nat) - data_start(total);
                &&& 0 <= at
                &&& at + aligned(blobs[i].len()) <= blob_area(blobs).len()
                &&& blob_area(blobs).subrange(at, at + blobs[i].len()) == blobs[i]
            },
    decreases blobs.len(),
{
    if blobs.len() > 0 {
        let front = blobs.drop_last();
        let lens = lens_of(blobs);
        lemma_blob_area(total, front);
        lemma_aligned(blobs.last().len());
        lemma_offset_prefix(total, lens, lens_of(front), front.len());
        let area = blob_area(blobs);
        assert forall|i: int| #![trigger blobs[i]] 0 <= i < blobs.len() implies {
            let at = blob_offset(total, lens, i as nat) - data_start(total);
            &&& 0 <= at
            &&& at + aligned(blobs[i].len()) <= area.len()
            &&& area.subrange(at, at + blobs[i].len()) == blobs[i]
        } by {
            let at = blob_offset(total, lens, i as nat) - data_start(total);
            lemma_offset_prefix(total, lens, lens_of(front), i as nat);
            lemma_aligned(blobs[i].len());
            if i < front.len() {
                assert(front[i] == blobs[i]);
                assert(area.subrange(at, at + blobs[i].len()) =~= blob_area(front).subrange(
                    at,
                    at + blobs[i].len(),
                ));
            } else {
                assert(area.subrange(at, at + blobs[i].len()) =~= blobs[i]);
            }
        }
    }
}

proof fn lemma_offsets_ordered(total: nat, lens: Seq<nat>, i: nat, j: nat)
    requires
        i <= j <= lens.len(),
    ensures
        data_start(total) <= blob_offset(total, lens, i),
        i < j ==> blob_offset(total, lens, i) + aligned(lens[i as int]) <= blob_offset(
            total,
            lens,
            j,
        ),
        blob_offset(total, lens, i) <= blob_offset(total, lens, j),
        blob_offset(total, lens, i) % (ALIGN as nat) == 0,
    decreases j,
{
    if i < j {
        lemma_offsets_ordered(total, lens, i, (j - 1) as nat);
    } else if i > 0 {
        lemma_offsets_ordered(total, lens, (i - 1) as nat, (i - 1) as nat);
        lemma_aligned(lens[i - 1]);
    }
}

/// What a read gives back of a write: in the file that a finished pack makes,
/// the header block announces the metadata that was written, the index
/// section lists offset and length of every blob, and the bytes there are the
/// blob, within a span of whole blocks that the file holds. The blobs lie one
/// behind the other, each from a block boundary on.
pub proof fn law_pack_reads_back(json: Seq<u8>, blobs: Seq<Seq<u8>>, i: int)
    requires
        json.len() <= ALIGN - 16,
        0 <= i < blobs.len(),
        pack_image(json, blobs).len() <= u64::MAX,
    ensures
        ({
            let total = blobs.len();
            let image = pack_image(json, blobs);
            let raw = image.subrange(ALIGN as int, ALIGN + aligned(total * 16));
            let (offset, nbytes) = index_entry(raw, i);
            &&& header_metadata(image.take(ALIGN as int)) == Ok::<Seq<u8>, PackError>(json)
            &&& offset == blob_offset(total, lens_of(blobs), i as nat)
            &&& offset % (ALIGN as nat) == 0
            &&& ALIGN + aligned(total * 16) <= offset
            &&& nbytes == blobs[i].len()
            &&& offset + aligned(nbytes) <= image.len()
            &&& image.subrange(offset as int, (offset + nbytes) as int) == blobs[i]
        }),
{
    lemma_reads_header(json, blobs);
    lemma_reads_index(json, blobs, i);
    lemma_reads_blob(json, blobs, i);
    lemma_offsets_ordered(blobs.len(), lens_of(blobs), i as nat, i as nat);
}

/// The parts of a pack file, and how long they are.
pub proof fn lemma_image_lengths(json: Seq<u8>, blobs: Seq<Seq<u8>>)
    requires
        json.len() <= ALIGN - 16,
    ensures
        ({
            let total = blobs.len();
            let lens = lens_of(blobs);
            let fill = (data_start(total) - ALIGN - total * INDEX_ENTRY_BYTES) as nat;
            &&& pack_image(json, blobs) == header_block(json) + index_bytes(total, lens, total)
                + zeros(fill) + blob_area(blobs)
            &&& header_block(json).len() == ALIGN
            &&& index_bytes(total, lens, total).len() == 16 * total
            &&& ALIGN + 16 * total + zeros(fill).len() == ALIGN + aligned(total * 16)
            &&& data_start(total) == ALIGN + aligned(total * 16)
        }),
{
    let total = blobs.len();
    lemma_header_block(json);
    lemma_index_len(total, lens_of(blobs), total);
    lemma_data_start(total);
}

proof fn lemma_reads_header(json: Seq<u8>, blobs: Seq<Seq<u8>>)
    requires
        json.len() <= ALIGN - 16,
    ensures
        header_metadata(pack_image(json, blobs).take(ALIGN as int)) == Ok::<Seq<u8>, PackError>(
            json,
        ),
{
    lemma_image_lengths(json, blobs);
    assert(pack_image(json, blobs).take(ALIGN as int) =~= header_block(json));
    lemma_header_block(json);
}

proof fn lemma_reads_index(json: Seq<u8>, blobs: Seq<Seq<u8>>, i: int)
    requires
        json.len() <= ALIGN - 16,
        0 <= i < blobs.len(),
        pack_image(json, blobs).len() <= u64::MAX,
    ensures
        ({
            let total = blobs.len();
            let raw = pack_image(json, blobs).subrange(
                ALIGN as int,
                ALIGN + aligned(total * 16),
            );
            index_entry(raw, i) == (
                blob_offset(total, lens_of(blobs), i as nat),
                lens_of(blobs)[i],
            )
        }),
{
    let total = blobs.len();
    let lens = lens_of(blobs);
    let image = pack_image(json, blobs);
    let index = index_bytes(total, lens, total);
    let raw = image.subrange(ALIGN as int, ALIGN + aligned(total * 16));
    let offset = blob_offset(total, lens, i as nat);
    lemma_image_lengths(json, blobs);
    lemma_blob_area(total, blobs);
    assert(lens[i] == blobs[i].len());
    lemma_offsets_ordered(total, lens, i as nat, total);
    lemma_aligned(lens[i]);
    assert(offset <= u64::MAX && lens[i] <= u64::MAX);
    lemma_index_bytes(total, lens, total, i);
    assert(raw.subrange(16 * i, 16 * i + 8) =~= index.subrange(16 * i, 16 * i + 8));
    assert(raw.subrange(16 * i + 8, 16 * i + 16) =~= index.subrange(16 * i + 8, 16 * i + 16));
    lemma_span_values();
    law_le_round_trip(offset, 8);
    law_le_round_trip(lens[i], 8);
}

proof fn lemma_reads_blob(json: Seq<u8>, blobs: Seq<Seq<u8>>, i: int)
    requires
        json.len() <= ALIGN - 16,
        0 <= i < blobs.len(),
    ensures
        ({
            let image = pack_image(json, blobs);
            let offset = blob_offset(blobs.len(), lens_of(blobs), i as nat);
            &&& ALIGN + aligned(blobs.len() * 16) <= offset
            &&& lens_of(blobs)[i] == blobs[i].len()
            &&& offset + aligned(blobs[i].len()) <= image.len()
            &&& image.subrange(offset as int, (offset + blobs[i].len()) as int) == blobs[i]
        }),
{
    let total = blobs.len();
    let lens = lens_of(blobs);
    let image = pack_image(json, blobs);
    let area = blob_area(blobs);
    let offset = blob_offset(total, lens, i as nat);
    let at = offset - data_start(total);
    lemma_image_lengths(json, blobs);
    lemma_blob_area(total, blobs);
    assert(blobs[i].len() == lens[i]);
    lemma_aligned(blobs[i].len());
    assert(image.subrange(offset as int, (offset + blobs[i].len()) as int) =~= area.subrange(
        at,
        at + blobs[i].len(),
    ));
}

pub proof fn lemma_data_start(total: nat)
    ensures
        data_start(total) == ALIGN + aligned(total * 16),
        aligned(total * 16) >= total * 16,
{
}

/// Every blob starts on a block boundary behind the index, and no two blobs
/// share a block.
pub proof fn law_blobs_aligned_and_disjoint(total: nat, lens: Seq<nat>, i: nat, j: nat)
    requires
        i < j < lens.len(),
    ensures
        blob_offset(total, lens, i) % (ALIGN as nat) == 0,
        blob_offset(total, lens, j) % (ALIGN as nat) == 0,
        data_start(total) <= blob_offset(total, lens, i),
        blob_offset(total, lens, i) + aligned(lens[i as int]) <= blob_offset(total, lens, j),
{
    lemma_offsets_ordered(total, lens, i, j);
    lemma_offsets_ordered(total, lens, j, j);
}

} // verus!
