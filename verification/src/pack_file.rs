//! The file that the calls of a pack writer make, and what the calls of a
//! reader give back of it.

use crate::bytes::zeros;
use crate::pack::{
    aligned, blob_area, blob_offset, data_start, header_metadata, law_pack_reads_back,
    lemma_aligned, lemma_blob_area, lemma_data_start, lemma_image_lengths, lemma_offset_prefix,
    lens_of, pack_front, pack_image, padded, BlobRead, PackError, PackMeta, PackReader, PackWriter,
    ALIGN,
};
use vstd::prelude::*;

verus! {

/// A file once `bytes` were written at `at`: a gap in front of them reads as
/// zeros.
pub open spec fn written(file: Seq<u8>, at: nat, bytes: Seq<u8>) -> Seq<u8> {
    let front = if file.len() < at {
        file + zeros((at - file.len()) as nat)
    } else {
        file.take(at as int)
    };
    let end = at + bytes.len();
    front + bytes + (if file.len() > end {
        file.skip(end as int)
    } else {
        Seq::empty()
    })
}

/// The writers `w` are the states of one writer of a pack with metadata `meta`:
/// created, then handed the blobs in turn.
pub open spec fn fed(w: Seq<PackWriter>, meta: PackMeta, blobs: Seq<Seq<u8>>) -> bool {
    &&& w.len() == blobs.len() + 1
    &&& w[0].spec_meta() == meta
    &&& w[0].lens() == Seq::<nat>::empty()
    &&& forall|i: int|
        #![trigger blobs[i]]
        0 <= i < blobs.len() ==> w[i].adds(blobs[i], padded(blobs[i]), w[i + 1])
}

/// The file once what the first `n` calls handed back was written, each where
/// the writer stood before the call.
pub open spec fn saved(w: Seq<PackWriter>, blobs: Seq<Seq<u8>>, n: nat) -> Seq<u8>
    decreases n,
{
    if n == 0 {
        Seq::empty()
    } else {
        written(
            saved(w, blobs, (n - 1) as nat),
            w[n - 1].next(),
            padded(blobs[n - 1]),
        )
    }
}

proof fn lemma_fed(w: Seq<PackWriter>, meta: PackMeta, blobs: Seq<Seq<u8>>, n: nat)
    requires
        fed(w, meta, blobs),
        n <= blobs.len(),
    ensures
        w[n as int].spec_meta() == meta,
        w[n as int].lens() == lens_of(blobs).take(n as int),
        w[n as int].next() == blob_offset(meta.spec_total(), lens_of(blobs), n),
    decreases n,
{
    let lens = lens_of(blobs);
    if n > 0 {
        lemma_fed(w, meta, blobs, (n - 1) as nat);
        assert(w[n - 1].adds(blobs[n - 1], padded(blobs[n - 1]), w[n - 1 + 1]));
        assert(lens.take(n as int) =~= lens.take(n - 1).push(blobs[n - 1].len()));
    } else {
        assert(lens.take(0) =~= Seq::<nat>::empty());
    }
    lemma_offset_prefix(meta.spec_total(), lens.take(n as int), lens, n);
}

proof fn lemma_saved(w: Seq<PackWriter>, meta: PackMeta, blobs: Seq<Seq<u8>>, n: nat)
    requires
        fed(w, meta, blobs),
        n <= blobs.len(),
    ensures
        n > 0 ==> saved(w, blobs, n) == zeros(data_start(meta.spec_total())) + blob_area(
            blobs.take(n as int),
        ),
    decreases n,
{
    let total = meta.spec_total();
    if n > 0 {
        let m = (n - 1) as nat;
        let front = blobs.take(m as int);
        lemma_saved(w, meta, blobs, m);
        lemma_fed(w, meta, blobs, m);
        lemma_blob_area(total, front);
        lemma_offset_prefix(total, lens_of(front), lens_of(blobs), m);
        assert(blobs.take(n as int).drop_last() =~= front);
        assert(blobs.take(n as int).last() == blobs[n - 1]);
        if m == 0 {
            assert(front =~= Seq::<Seq<u8>>::empty());
        }
        let last = padded(blobs[n - 1]);
        assert(blob_area(blobs.take(n as int)) == blob_area(front) + last);
        assert(w[m as int].next() == data_start(total) + blob_area(front).len());
        let before = saved(w, blobs, m);
        if m == 0 {
            assert(before =~= Seq::<u8>::empty());
            assert(blob_area(front) =~= Seq::<u8>::empty());
            assert(written(before, data_start(total), last) =~= zeros(data_start(total)) + last);
        } else {
            assert(before.len() == w[m as int].next());
            assert(written(before, before.len(), last) =~= before + last);
        }
        assert(saved(w, blobs, n) =~= zeros(data_start(total)) + blob_area(blobs.take(n as int)));
    }
}

/// What the calls of a writer hand back makes the whole pack once it stands in
/// the file: the blobs each where the writer stood, and the front at 0.
pub proof fn law_calls_make_the_pack(
    w: Seq<PackWriter>,
    meta: PackMeta,
    json: Seq<u8>,
    blobs: Seq<Seq<u8>>,
)
    requires
        fed(w, meta, blobs),
        blobs.len() == meta.spec_total(),
        json.len() <= ALIGN - 16,
    ensures
        w.last().lens() == lens_of(blobs),
        written(
            saved(w, blobs, blobs.len()),
            0,
            pack_front(json, meta.spec_total(), w.last().lens()),
        ) == pack_image(json, blobs),
{
    let n = blobs.len();
    let lens = lens_of(blobs);
    lemma_fed(w, meta, blobs, n);
    assert(lens.take(n as int) =~= lens);
    lemma_saved(w, meta, blobs, n);
    lemma_image_lengths(json, blobs);
    lemma_data_start(n);
    assert(blobs.take(n as int) =~= blobs);
    let front = pack_front(json, n, lens);
    assert(front.len() == data_start(n));
    let file = saved(w, blobs, n);
    assert(written(file, 0, front) =~= front + (if n > 0 {
        blob_area(blobs)
    } else {
        Seq::empty()
    }));
    if n == 0 {
        assert(blob_area(blobs) =~= Seq::<u8>::empty());
    }
}

/// What a reader gives back of what a writer was handed: in the file that the
/// writer's calls make, the header announces the metadata. A reader of that
/// file's index refuses a buffer that is too short for an expert's blob in whole
/// blocks or, for a direct read, not at a block; else it names a span in the
/// file whose front is the blob.
pub proof fn law_pack_file_reads_back(
    w: Seq<PackWriter>,
    meta: PackMeta,
    json: Seq<u8>,
    blobs: Seq<Seq<u8>>,
    file: Seq<u8>,
    reader: PackReader,
    layer: u16,
    expert: u16,
    len: u64,
    addr: u64,
    read: Result<BlobRead, PackError>,
)
    requires
        fed(w, meta, blobs),
        blobs.len() == meta.spec_total(),
        json.len() <= ALIGN - 16,
        file == written(
            saved(w, blobs, blobs.len()),
            0,
            pack_front(json, meta.spec_total(), w.last().lens()),
        ),
        file.len() <= u64::MAX,
        reader.indexes(
            meta,
            file.subrange(ALIGN as int, ALIGN + aligned(meta.spec_total() * 16)),
        ),
        layer < meta.num_layers,
        expert < meta.experts_per_layer,
        reader.answers(layer, expert, len, addr, read),
    ensures
        header_metadata(file.take(ALIGN as int)) == Ok::<Seq<u8>, PackError>(json),
        ({
            let blob = blobs[layer * meta.experts_per_layer + expert];
            if len < aligned(blob.len()) {
                read == Err::<BlobRead, PackError>(PackError::BufferTooSmall { len })
            } else if reader.spec_direct() && addr % ALIGN != 0 {
                read == Err::<BlobRead, PackError>(PackError::Unaligned)
            } else {
                &&& read matches Ok(r)
                &&& r.nbytes == blob.len()
                &&& r.nbytes <= r.span <= len
                &&& r.offset == blob_offset(
                    meta.spec_total(),
                    lens_of(blobs),
                    (layer * meta.experts_per_layer + expert) as nat,
                )
                &&& r.offset % ALIGN == 0
                &&& r.offset + r.span <= file.len()
                &&& file.subrange(r.offset as int, r.offset + r.nbytes) == blob
            }
        }),
{
    let n = meta.experts_per_layer as int;
    let i = layer * n + expert;
    assert(0 <= i < meta.num_layers * n) by (nonlinear_arith)
        requires
            i == layer * n + expert,
            0 <= layer < meta.num_layers,
            0 <= expert < n,
    ;
    law_calls_make_the_pack(w, meta, json, blobs);
    law_pack_reads_back(json, blobs, i);
    lemma_aligned(blobs[i].len());
}

} // verus!
