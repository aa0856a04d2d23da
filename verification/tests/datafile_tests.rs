use datafile::{
    Callback, CallbackError, CallbackReadError, DatafileBuffer, DatafileError, Error, Reader,
};

/// An in-memory byte source.
struct MemSource {
    data: Vec<u8>,
    pos: usize,
    base: usize,
}

impl MemSource {
    fn new(data: Vec<u8>) -> MemSource {
        MemSource { data, pos: 0, base: 0 }
    }
}

impl Callback for MemSource {
    fn read(&mut self, buffer: &mut Vec<u8>) -> Result<usize, CallbackError> {
        let n = buffer.len().min(self.data.len() - self.pos.min(self.data.len()));
        for i in 0..n {
            buffer[i] = self.data[self.pos + i];
        }
        self.pos += n;
        Ok(n)
    }

    fn seek_read(&mut self, start: u32, buffer: &mut Vec<u8>) -> Result<usize, CallbackError> {
        let from = self.base + start as usize;
        if from >= self.data.len() {
            return Ok(0);
        }
        let n = buffer.len().min(self.data.len() - from);
        for i in 0..n {
            buffer[i] = self.data[from + i];
        }
        Ok(n)
    }

    fn set_seek_base(&mut self) -> Result<(), CallbackError> {
        self.base = self.pos;
        Ok(())
    }

    fn ensure_filesize(&mut self, _filesize: u32) -> Result<Result<(), ()>, CallbackError> {
        Ok(Ok(()))
    }
}

fn w32(out: &mut Vec<u8>, v: i32) {
    let u = v as u32;
    out.push((u & 0xff) as u8);
    out.push(((u >> 8) & 0xff) as u8);
    out.push(((u >> 16) & 0xff) as u8);
    out.push(((u >> 24) & 0xff) as u8);
}

/// Serialize a buffer's contents as a datafile byte stream. For version 4
/// the blobs are zlib-compressed and an uncompressed-size table is written.
fn serialize(buffer: &DatafileBuffer, version: i32) -> Vec<u8> {
    let num_item_types = buffer.num_item_types();
    let num_items = buffer.num_items();
    let num_data = buffer.num_data();

    let mut item_blob: Vec<u8> = Vec::new();
    let mut item_offsets: Vec<i32> = Vec::new();
    for i in 0..num_items {
        let (type_id, id, payload) = buffer.item(i);
        item_offsets.push(item_blob.len() as i32);
        w32(&mut item_blob, (((type_id as u32) << 16) | id as u32) as i32);
        w32(&mut item_blob, (4 * payload.len()) as i32);
        for w in &payload {
            w32(&mut item_blob, *w);
        }
    }

    let mut stored_blobs: Vec<Vec<u8>> = Vec::new();
    let mut uncomp_sizes: Vec<i32> = Vec::new();
    for i in 0..num_data {
        let raw = buffer.data_noerr(i);
        uncomp_sizes.push(raw.len() as i32);
        if version >= 4 {
            stored_blobs.push(miniz_oxide::deflate::compress_to_vec_zlib(raw, 6));
        } else {
            stored_blobs.push(raw.clone());
        }
    }
    let mut data_offsets: Vec<i32> = Vec::new();
    let mut data_blob: Vec<u8> = Vec::new();
    for b in &stored_blobs {
        data_offsets.push(data_blob.len() as i32);
        data_blob.extend_from_slice(b);
    }

    let size_items = item_blob.len() as i32;
    let size_data = data_blob.len() as i32;
    let mut size: i64 = 20
        + 12 * num_item_types as i64
        + 4 * num_items as i64
        + 4 * num_data as i64
        + size_items as i64
        + size_data as i64;
    if version >= 4 {
        size += 4 * num_data as i64;
    }

    let mut out: Vec<u8> = Vec::new();
    out.extend_from_slice(b"DATA");
    w32(&mut out, version);
    w32(&mut out, size as i32);
    w32(&mut out, 0); // swaplen
    w32(&mut out, num_item_types as i32);
    w32(&mut out, num_items as i32);
    w32(&mut out, num_data as i32);
    w32(&mut out, size_items);
    w32(&mut out, size_data);
    for t in 0..num_item_types {
        let (type_id, start, num) = buffer.item_type(t);
        w32(&mut out, type_id as i32);
        w32(&mut out, start as i32);
        w32(&mut out, num as i32);
    }
    for off in &item_offsets {
        w32(&mut out, *off);
    }
    for off in &data_offsets {
        w32(&mut out, *off);
    }
    if version >= 4 {
        for s in &uncomp_sizes {
            w32(&mut out, *s);
        }
    }
    out.extend_from_slice(&item_blob);
    out.extend_from_slice(&data_blob);
    out
}

fn sample_buffer() -> DatafileBuffer {
    let mut b = DatafileBuffer::new();
    assert_eq!(b.add_item(7, 2, &[10, 20, 30]), Ok(()));
    assert_eq!(b.add_item(3, 5, &[-1]), Ok(()));
    assert_eq!(b.add_item(7, 1, &[]), Ok(()));
    assert_eq!(b.add_item(3, 4, &[0, 9]), Ok(()));
    assert_eq!(b.add_data(vec![1, 2, 3, 4, 5]), 0);
    assert_eq!(b.add_data(b"hello hello hello hello".to_vec()), 1);
    b
}

fn read_all(bytes: Vec<u8>) -> Result<(Reader, MemSource), Error> {
    let mut src = MemSource::new(bytes);
    let reader = Reader::new(&mut src)?;
    Ok((reader, src))
}

#[test]
fn header_total_size_matches_declared_size() {
    let b = sample_buffer();
    let bytes = serialize(&b, 3);
    let mut src = MemSource::new(bytes);
    let header = datafile::DatafileHeader::read(&mut src).unwrap();
    assert_eq!(header.total_size(), Ok(header.hr.size));
    assert_eq!(header.check(), Ok(()));
}

#[test]
fn corrupting_each_count_gives_malformed_header() {
    let b = sample_buffer();
    let bytes = serialize(&b, 3);
    // the five counted fields sit at byte offsets 16, 20, 24, 28, 32
    for off in [16usize, 20, 24, 28, 32] {
        let mut bad = bytes.clone();
        bad[off] = bad[off].wrapping_add(4);
        let err = read_all(bad).err().expect("corrupted count must fail");
        assert_eq!(err, Error::Df(DatafileError::MalformedHeader));
    }
}

#[test]
fn roundtrip_version_3() {
    let b = sample_buffer();
    let (reader, mut src) = read_all(serialize(&b, 3)).unwrap();
    assert_eq!(reader.num_items(), b.num_items());
    assert_eq!(reader.num_data(), b.num_data());
    let mut got: Vec<(u16, u16, Vec<i32>)> = Vec::new();
    for i in 0..reader.num_items() {
        let item = reader.item(i);
        got.push((item.type_id, item.id, item.data));
    }
    let mut expected: Vec<(u16, u16, Vec<i32>)> = Vec::new();
    for i in 0..b.num_items() {
        expected.push(b.item(i));
    }
    assert_eq!(got, expected);
    for i in 0..reader.num_data() {
        let blob = reader.read_data(&mut src, i).unwrap();
        assert_eq!(&blob, b.data_noerr(i));
    }
}

#[test]
fn roundtrip_version_4_compressed() {
    let b = sample_buffer();
    let (reader, mut src) = read_all(serialize(&b, 4)).unwrap();
    let mut got: Vec<(u16, u16, Vec<i32>)> = Vec::new();
    for i in 0..reader.num_items() {
        let item = reader.item(i);
        got.push((item.type_id, item.id, item.data));
    }
    let mut expected: Vec<(u16, u16, Vec<i32>)> = Vec::new();
    for i in 0..b.num_items() {
        expected.push(b.item(i));
    }
    assert_eq!(got, expected);
    for i in 0..reader.num_data() {
        let blob = reader.read_data(&mut src, i).unwrap();
        assert_eq!(&blob, b.data_noerr(i));
    }
}

#[test]
fn item_types_consistent_with_lookup() {
    let b = sample_buffer();
    let (reader, _src) = read_all(serialize(&b, 3)).unwrap();
    for type_id in reader.item_types() {
        let range = reader.item_type_indices(type_id);
        for k in range {
            assert_eq!(reader.item(k).type_id, type_id);
        }
    }
    // every item is covered by its own type's range
    for k in 0..reader.num_items() {
        let item = reader.item(k);
        let range = reader.item_type_indices(item.type_id);
        assert!(range.contains(&k));
    }
    // items of one type come back in table order
    let sevens = reader.item_type_items(7);
    assert_eq!(sevens.len(), 2);
    assert_eq!(sevens[0].id, 1);
    assert_eq!(sevens[1].id, 2);
}

#[test]
fn truncated_header_version_fails() {
    let b = sample_buffer();
    let bytes = serialize(&b, 3);
    for k in 0..8 {
        let err = read_all(bytes[..k].to_vec()).err().unwrap();
        assert_eq!(err, Error::Df(DatafileError::TooShortHeaderVersion));
    }
}

#[test]
fn truncated_header_fails() {
    let b = sample_buffer();
    let bytes = serialize(&b, 3);
    for k in 8..36 {
        let err = read_all(bytes[..k].to_vec()).err().unwrap();
        assert_eq!(err, Error::Df(DatafileError::TooShortHeader));
    }
}

#[test]
fn truncated_tables_fail_too_short() {
    let b = sample_buffer();
    let bytes = serialize(&b, 3);
    let err = read_all(bytes[..40].to_vec()).err().unwrap();
    assert_eq!(err, Error::Df(DatafileError::TooShort));
}

#[test]
fn wrong_magic_fails() {
    let b = sample_buffer();
    let mut bytes = serialize(&b, 3);
    bytes[0] = b'X';
    let err = read_all(bytes).err().unwrap();
    assert_eq!(err, Error::Df(DatafileError::WrongMagic(*b"XATA")));
}

#[test]
fn swapped_magic_is_accepted_by_header() {
    let b = sample_buffer();
    let mut bytes = serialize(&b, 3);
    bytes[0] = b'A';
    bytes[1] = b'T';
    bytes[2] = b'A';
    bytes[3] = b'D';
    assert!(read_all(bytes).is_ok());
}

#[test]
fn unsupported_version_fails() {
    let b = sample_buffer();
    let mut bytes = serialize(&b, 3);
    bytes[4] = 5;
    let err = read_all(bytes).err().unwrap();
    assert_eq!(err, Error::Df(DatafileError::UnsupportedVersion(5)));
}

/// Byte offset of the item blob inside a version-3 stream.
fn item_blob_offset(b: &DatafileBuffer) -> usize {
    36 + 12 * b.num_item_types() + 4 * b.num_items() + 4 * b.num_data()
}

#[test]
fn negative_item_size_fails_malformed() {
    let b = sample_buffer();
    let mut bytes = serialize(&b, 3);
    let pos = item_blob_offset(&b) + 4; // size word of the first item header
    bytes[pos] = 0xfc;
    bytes[pos + 1] = 0xff;
    bytes[pos + 2] = 0xff;
    bytes[pos + 3] = 0xff;
    let err = read_all(bytes).err().unwrap();
    assert_eq!(err, Error::Df(DatafileError::Malformed));
}

#[test]
fn non_monotonic_item_offsets_fail_malformed() {
    let b = sample_buffer();
    let mut bytes = serialize(&b, 3);
    let pos = 36 + 12 * b.num_item_types() + 4; // second item offset
    bytes[pos] = bytes[pos].wrapping_add(4);
    let err = read_all(bytes).err().unwrap();
    assert_eq!(err, Error::Df(DatafileError::Malformed));
}

#[test]
fn decreasing_data_offsets_fail_malformed() {
    let b = sample_buffer();
    let mut bytes = serialize(&b, 3);
    // make the first data offset larger than the second
    let pos = 36 + 12 * b.num_item_types() + 4 * b.num_items();
    bytes[pos] = 10;
    let err = read_all(bytes).err().unwrap();
    assert_eq!(err, Error::Df(DatafileError::Malformed));
}

#[test]
fn duplicate_type_id_fails_malformed() {
    let b = sample_buffer();
    let mut bytes = serialize(&b, 3);
    // overwrite the second descriptor's type id with the first one's
    let first = bytes[36];
    bytes[36 + 12] = first;
    let err = read_all(bytes).err().unwrap();
    assert_eq!(err, Error::Df(DatafileError::Malformed));
}

#[test]
fn dangling_items_fail_malformed() {
    let b = sample_buffer();
    let mut bytes = serialize(&b, 3);
    // shrink the last type's count so start + num != num_items
    let pos = 36 + 12 + 8; // num field of the second descriptor
    bytes[pos] -= 1;
    let err = read_all(bytes).err().unwrap();
    assert_eq!(err, Error::Df(DatafileError::Malformed));
}

#[test]
fn uncompressed_size_mismatch_gives_compression_error() {
    let b = sample_buffer();
    let mut bytes = serialize(&b, 4);
    // uncompressed-size table entry of blob 0, declared one byte short
    let pos = 36 + 12 * b.num_item_types() + 4 * b.num_items() + 4 * b.num_data();
    bytes[pos] -= 1;
    let (reader, mut src) = read_all(bytes).unwrap();
    let err = reader.read_data(&mut src, 0).err().unwrap();
    assert_eq!(err, Error::Df(DatafileError::CompressionError));
}

#[test]
fn corrupt_compressed_stream_gives_compression_error() {
    let b = sample_buffer();
    let bytes = serialize(&b, 4);
    let (reader, mut src) = read_all(bytes).unwrap();
    // damage the compressed blob region behind the seek base
    let blob_region = src.base;
    src.data[blob_region] ^= 0xff;
    let err = reader.read_data(&mut src, 0).err().unwrap();
    assert_eq!(err, Error::Df(DatafileError::CompressionError));
}

#[test]
fn buffer_types_stay_sorted_and_contiguous() {
    let mut b = DatafileBuffer::new();
    for (type_id, id) in [(9u16, 1u16), (2, 7), (9, 0), (5, 3), (2, 2), (5, 9), (5, 1)] {
        assert_eq!(b.add_item(type_id, id, &[type_id as i32, id as i32]), Ok(()));
    }
    let mut expected_start = 0;
    let mut last_type: Option<u16> = None;
    for t in 0..b.num_item_types() {
        let (type_id, start, num) = b.item_type(t);
        if let Some(prev) = last_type {
            assert!(prev < type_id, "type ids must ascend");
        }
        last_type = Some(type_id);
        assert_eq!(start, expected_start, "runs must be contiguous");
        assert!(num >= 1);
        let mut last_id: Option<u16> = None;
        for k in start..start + num {
            let (item_type, id, _payload) = b.item(k);
            assert_eq!(item_type, type_id);
            if let Some(prev) = last_id {
                assert!(prev < id, "ids must ascend inside a run");
            }
            last_id = Some(id);
        }
        expected_start += num;
    }
    assert_eq!(expected_start, b.num_items());
}

#[test]
fn duplicate_item_is_rejected_and_state_unchanged() {
    let mut b = DatafileBuffer::new();
    assert_eq!(b.add_item(4, 4, &[1]), Ok(()));
    assert_eq!(b.add_item(4, 5, &[2]), Ok(()));
    let before: Vec<(u16, u16, Vec<i32>)> = (0..b.num_items()).map(|i| b.item(i)).collect();
    let types_before: Vec<(u16, usize, usize)> =
        (0..b.num_item_types()).map(|t| b.item_type(t)).collect();
    assert_eq!(b.add_item(4, 4, &[99]), Err(()));
    let after: Vec<(u16, u16, Vec<i32>)> = (0..b.num_items()).map(|i| b.item(i)).collect();
    let types_after: Vec<(u16, usize, usize)> =
        (0..b.num_item_types()).map(|t| b.item_type(t)).collect();
    assert_eq!(before, after);
    assert_eq!(types_before, types_after);
}

#[test]
fn add_data_returns_dense_indices_and_keeps_bytes() {
    let mut b = DatafileBuffer::new();
    let blobs: Vec<Vec<u8>> = vec![vec![], vec![42], vec![1, 2, 3], b"abc".to_vec()];
    for (i, blob) in blobs.iter().enumerate() {
        assert_eq!(b.add_data(blob.clone()), i);
    }
    for (i, blob) in blobs.iter().enumerate() {
        assert_eq!(b.data_noerr(i), blob);
    }
    let all = b.data_noerr_iter();
    assert_eq!(all, blobs);
}

#[test]
fn on_eof_maps_end_of_file_to_domain_error() {
    assert_eq!(
        CallbackReadError::EndOfFile.on_eof(DatafileError::TooShort),
        Error::Df(DatafileError::TooShort)
    );
    assert_eq!(
        CallbackReadError::Cb(CallbackError).on_eof(DatafileError::TooShort),
        Error::Cb(CallbackError)
    );
}

#[test]
fn empty_datafile_roundtrip() {
    let b = DatafileBuffer::new();
    let (reader, _src) = read_all(serialize(&b, 3)).unwrap();
    assert_eq!(reader.num_items(), 0);
    assert_eq!(reader.num_data(), 0);
    assert_eq!(reader.num_item_types(), 0);
    let range = reader.item_type_indices(3);
    assert_eq!(range, 0..0);
}

#[test]
fn data_iter_returns_every_blob() {
    let b = sample_buffer();
    let (reader, mut src) = read_all(serialize(&b, 4)).unwrap();
    let all = reader.data_iter(&mut src);
    assert_eq!(all.len(), b.num_data());
    for (i, r) in all.iter().enumerate() {
        assert_eq!(r.as_ref().unwrap(), b.data_noerr(i));
    }
}

#[test]
fn overflowing_total_size_fails_malformed_header() {
    let mut bytes: Vec<u8> = Vec::new();
    bytes.extend_from_slice(b"DATA");
    w32(&mut bytes, 3); // version
    w32(&mut bytes, 40); // declared size
    w32(&mut bytes, 0); // swaplen
    w32(&mut bytes, 0); // num_item_types
    w32(&mut bytes, 0); // num_items
    w32(&mut bytes, 0); // num_data
    w32(&mut bytes, 0x7ffffffc); // size_items
    w32(&mut bytes, 0x7ffffffc); // size_data
    let err = read_all(bytes).err().unwrap();
    assert_eq!(err, Error::Df(DatafileError::MalformedHeader));
}

#[test]
fn decompress_expected_returns_the_original_bytes() {
    let raw: Vec<u8> = b"some words said three times, some words said three times".to_vec();
    let compressed = miniz_oxide::deflate::compress_to_vec_zlib(&raw, 6);
    let out = datafile::decompress_expected(&compressed, raw.len()).unwrap();
    assert_eq!(out, raw);
}

#[test]
fn decompress_expected_rejects_wrong_length() {
    let raw: Vec<u8> = vec![7; 40];
    let compressed = miniz_oxide::deflate::compress_to_vec_zlib(&raw, 6);
    let err = datafile::decompress_expected(&compressed, raw.len() - 1).err().unwrap();
    assert_eq!(err, Error::Df(DatafileError::CompressionError));
}

#[test]
fn decompress_expected_rejects_garbage() {
    let garbage: Vec<u8> = vec![0xff; 16];
    let err = datafile::decompress_expected(&garbage, 16).err().unwrap();
    assert_eq!(err, Error::Df(DatafileError::CompressionError));
}
