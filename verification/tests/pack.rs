use llmpager::json::{parse_json, print_json, Json};
use llmpager::pack::{
    align_up, PackError, PackMeta, PackReader, PackWriter, ALIGN, FORMAT_VERSION, MAGIC,
};

fn blob_for(layer: u16, expert: u16, nbytes: usize) -> Vec<u8> {
    (0..nbytes)
        .map(|i| (layer as usize * 31 + expert as usize * 7 + i) as u8)
        .collect()
}

fn meta_of(model: &str, layers: u16, experts: u16, dtype: &str) -> PackMeta {
    PackMeta {
        model: model.to_string(),
        num_layers: layers,
        experts_per_layer: experts,
        dtype: dtype.to_string(),
    }
}

fn meta_json(meta: &PackMeta) -> Vec<u8> {
    let json = Json::Object(vec![
        ("dtype".to_string(), Json::Str(meta.dtype.clone())),
        (
            "experts_per_layer".to_string(),
            Json::Uint(meta.experts_per_layer as u64),
        ),
        ("model".to_string(), Json::Str(meta.model.clone())),
        ("num_layers".to_string(), Json::Uint(meta.num_layers as u64)),
    ]);
    print_json(&json)
}

fn meta_back(json: &[u8]) -> PackMeta {
    let json = parse_json(json).unwrap();
    meta_of(
        json.get_str("model").unwrap(),
        json.get_u64("num_layers").unwrap() as u16,
        json.get_u64("experts_per_layer").unwrap() as u16,
        json.get_str("dtype").unwrap(),
    )
}

/// A whole pack in memory.
fn write_pack(meta: &PackMeta, blobs: &[Vec<u8>]) -> Vec<u8> {
    let mut w = PackWriter::create(meta.clone());
    let mut body: Vec<u8> = Vec::new();
    let start = w.position();
    for blob in blobs {
        assert_eq!(w.position(), start + body.len() as u64);
        body.extend_from_slice(&w.add_blob(blob).unwrap());
    }
    let mut file = w.finish(&meta_json(meta)).unwrap();
    assert_eq!(file.len() as u64, start);
    file.extend_from_slice(&body);
    file
}

fn read_pack(file: &[u8], direct: bool) -> PackReader {
    let block = &file[..ALIGN as usize];
    let meta = meta_back(PackReader::header_json(block).unwrap());
    let span = PackReader::index_span(&meta) as usize;
    let raw = &file[ALIGN as usize..ALIGN as usize + span];
    if direct {
        PackReader::open_direct(meta, raw)
    } else {
        PackReader::open(meta, raw)
    }
}

#[test]
fn round_trip() {
    let meta = meta_of("synthetic", 3, 4, "q4_gs64");
    let mut blobs = Vec::new();
    for l in 0..3u16 {
        for e in 0..4u16 {
            // Varying, non-aligned sizes exercise padding.
            blobs.push(blob_for(l, e, 1000 + l as usize * 500 + e as usize * 13));
        }
    }
    let file = write_pack(&meta, &blobs);

    let r = read_pack(&file, false);
    assert_eq!(r.meta(), &meta);
    for l in 0..3u16 {
        for e in 0..4u16 {
            let want = blob_for(l, e, 1000 + l as usize * 500 + e as usize * 13);
            let entry = r.entry(l, e);
            assert_eq!(entry.nbytes as usize, want.len());
            assert_eq!(entry.offset % ALIGN, 0, "blob not aligned");
            let read = r.read_blob_into(l, e, align_up(want.len() as u64), 0).unwrap();
            let buf = &file[read.offset as usize..(read.offset + read.span) as usize];
            let n = read.nbytes as usize;
            assert_eq!(&buf[..n], &want[..]);
        }
    }
}

#[test]
fn incomplete_pack_rejected() {
    let mut w = PackWriter::create(meta_of("x", 1, 2, "raw"));
    w.add_blob(&[1, 2, 3]).unwrap();
    let finished = w.finish(b"{}");
    assert!(finished.is_err());
    assert_eq!(
        finished.unwrap_err(),
        PackError::Incomplete { written: 1, total: 2 }
    );
}

#[test]
fn o_direct_read() {
    let want = blob_for(0, 0, 8192);
    let file = write_pack(&meta_of("x", 1, 1, "raw"), &[want.clone()]);
    let r = read_pack(&file, true);
    let read = r.read_blob_into(0, 0, 8192, 4096 * 77).unwrap();
    let buf = &file[read.offset as usize..(read.offset + read.span) as usize];
    assert_eq!(&buf[..read.nbytes as usize], &want[..]);
    // A direct read cannot start anywhere else; a buffered one can.
    assert_eq!(
        r.read_blob_into(0, 0, 8192, 4096 * 77 + 512).unwrap_err(),
        PackError::Unaligned
    );
    assert!(read_pack(&file, false).read_blob_into(0, 0, 8192, 1).is_ok());
}

#[test]
fn header_starts_with_magic_version_and_length() {
    let meta = meta_of("m", 1, 1, "raw");
    let json = meta_json(&meta);
    let file = write_pack(&meta, &[vec![9; 5]]);
    assert_eq!(&file[..8], b"LLMPK1\0\0");
    assert_eq!(&file[..8], &MAGIC[..]);
    assert_eq!(file[8..12], FORMAT_VERSION.to_le_bytes());
    assert_eq!(file[12..16], (json.len() as u32).to_le_bytes());
    assert_eq!(&file[16..16 + json.len()], &json[..]);
    assert!(file[16 + json.len()..4096].iter().all(|b| *b == 0));
    // One index entry, then the blob in the third block, padded to its end.
    assert_eq!(file[4096..4104], 8192u64.to_le_bytes());
    assert_eq!(file[4104..4112], 5u64.to_le_bytes());
    assert_eq!(file.len(), 3 * 4096);
    assert_eq!(&file[8192..8198], &[9, 9, 9, 9, 9, 0]);
}

#[test]
fn a_full_pack_takes_no_more_blobs() {
    let mut w = PackWriter::create(meta_of("x", 1, 1, "raw"));
    w.add_blob(&[1]).unwrap();
    assert_eq!(w.add_blob(&[2]).unwrap_err(), PackError::Full { total: 1 });
}

#[test]
fn metadata_must_fit_its_block() {
    let mut w = PackWriter::create(meta_of("x", 1, 1, "raw"));
    w.add_blob(&[1]).unwrap();
    assert_eq!(
        w.finish(&vec![b' '; 4081]).unwrap_err(),
        PackError::MetadataTooLarge
    );
    let mut w = PackWriter::create(meta_of("x", 1, 1, "raw"));
    w.add_blob(&[1]).unwrap();
    assert!(w.finish(&vec![b' '; 4080]).is_ok());
}

#[test]
fn foreign_headers_are_rejected() {
    let mut block = vec![0u8; 4096];
    assert_eq!(PackReader::header_json(&block).unwrap_err(), PackError::NotAPack);
    block[..8].copy_from_slice(&MAGIC);
    assert_eq!(
        PackReader::header_json(&block).unwrap_err(),
        PackError::UnsupportedVersion(0)
    );
    block[8..12].copy_from_slice(&FORMAT_VERSION.to_le_bytes());
    assert_eq!(PackReader::header_json(&block).unwrap(), b"");
    block[12..16].copy_from_slice(&4081u32.to_le_bytes());
    assert_eq!(
        PackReader::header_json(&block).unwrap_err(),
        PackError::HeaderOverrun { json_len: 4081 }
    );
}

#[test]
fn reads_need_the_aligned_span() {
    let file = write_pack(&meta_of("x", 1, 2, "raw"), &[vec![1; 4097], vec![2; 3]]);
    let r = read_pack(&file, false);
    assert_eq!(r.max_blob_bytes(), 4097);
    assert_eq!(
        r.read_blob_into(0, 0, 8191, 0).unwrap_err(),
        PackError::BufferTooSmall { len: 8191 }
    );
    let read = r.read_blob_into(0, 0, 8192, 0).unwrap();
    assert_eq!((read.offset, read.span, read.nbytes), (8192, 8192, 4097));
    assert_eq!(r.entry(0, 1).offset, 8192 + 8192);
}

#[test]
fn align_up_rounds_to_whole_blocks() {
    assert_eq!(align_up(0), 0);
    assert_eq!(align_up(1), 4096);
    assert_eq!(align_up(4096), 4096);
    assert_eq!(align_up(4097), 8192);
}
