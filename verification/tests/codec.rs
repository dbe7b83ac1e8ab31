//! End-to-end exercises of the table codec, the container reader, and
//! the decompressor, on concrete values.

use cpkcodec::cpk::CPK;
use cpkcodec::error::CpkError;
use cpkcodec::utf::{UTFColumn, UTFDataType, UTFStorage, UTFValue, UTF};

fn table(name: &str, cols: Vec<UTFColumn>, rows: Vec<Vec<Option<UTFValue>>>) -> UTF {
    UTF {
        name: name.as_bytes().to_vec(),
        cols,
        rows,
        col_len: 0,
        row_len: 0,
        str_len: 0,
    }
}

fn col(name: &str, dtype: UTFDataType, storage: UTFStorage, value: Option<UTFValue>) -> UTFColumn {
    UTFColumn {
        name: name.as_bytes().to_vec(),
        dtype,
        storage,
        value,
    }
}

fn sample_table() -> UTF {
    table(
        "Sample",
        vec![
            col("Kind", UTFDataType::U32, UTFStorage::CONSTANT, Some(UTFValue::U32(7))),
            col("ID", UTFDataType::U32, UTFStorage::PER_ROW, None),
            col("FileName", UTFDataType::STRING, UTFStorage::PER_ROW, None),
            col("Size", UTFDataType::U64, UTFStorage::PER_ROW, None),
            col("Spare", UTFDataType::U16, UTFStorage::ZERO, None),
        ],
        vec![
            vec![
                None,
                Some(UTFValue::U32(1)),
                Some(UTFValue::STRING(b"alpha.bin".to_vec())),
                Some(UTFValue::U64(0x1122334455667788)),
                None,
            ],
            vec![
                None,
                Some(UTFValue::U32(2)),
                Some(UTFValue::STRING(b"beta.bin".to_vec())),
                Some(UTFValue::U64(42)),
                None,
            ],
        ],
    )
}

#[test]
fn utf_round_trip_reproduces_columns_and_rows() {
    let t = sample_table();
    let bytes = t.write().expect("encodable");
    let back = UTF::read(&bytes, 0).expect("decodable");
    assert_eq!(back.name, b"Sample".to_vec());
    assert_eq!(back.cols.len(), 5);
    for (a, b) in back.cols.iter().zip(t.cols.iter()) {
        assert_eq!(a.name, b.name);
        assert_eq!(a.dtype, b.dtype);
        assert_eq!(a.storage, b.storage);
    }
    match &back.cols[0].value {
        Some(UTFValue::U32(v)) => assert_eq!(*v, 7),
        _ => panic!("constant lost"),
    }
    assert_eq!(back.rows.len(), 2);
    match &back.rows[0][2] {
        Some(UTFValue::STRING(s)) => assert_eq!(s, &b"alpha.bin".to_vec()),
        _ => panic!("string cell lost"),
    }
    match &back.rows[1][3] {
        Some(UTFValue::U64(v)) => assert_eq!(*v, 42),
        _ => panic!("u64 cell lost"),
    }
    match &back.rows[1][4] {
        None => {}
        _ => panic!("zero-storage cell must stay empty"),
    }
}

#[test]
fn utf_header_layout_is_big_endian() {
    let t = table("T", vec![], vec![]);
    let bytes = t.write().expect("encodable");
    assert_eq!(&bytes[0..4], b"@UTF");
    // rows offset: 24 bytes of header fields after the base, no columns
    assert_eq!(&bytes[8..12], &[0, 0, 0, 24]);
    // column count zero, row width zero, row count zero
    assert_eq!(&bytes[24..26], &[0, 0]);
    assert_eq!(&bytes[28..32], &[0, 0, 0, 0]);
    // the reserved entry leads the string heap
    let str_off = u32::from_be_bytes([bytes[12], bytes[13], bytes[14], bytes[15]]) as usize;
    assert_eq!(&bytes[8 + str_off..8 + str_off + 7], b"<NULL>\0");
}

#[test]
fn add_col_back_fills_every_existing_row() {
    let mut t = sample_table();
    t.add_col(
        b"Flag".to_vec(),
        UTFDataType::U16,
        UTFStorage::PER_ROW,
        Some(UTFValue::U16(9)),
    )
    .expect("fresh name");
    assert_eq!(t.cols.len(), 6);
    for row in &t.rows {
        assert_eq!(row.len(), 6);
        match &row[5] {
            Some(UTFValue::U16(v)) => assert_eq!(*v, 9),
            _ => panic!("default not back-filled"),
        }
    }
}

#[test]
fn remove_column_keeps_remaining_lookup_contiguous() {
    let mut t = sample_table();
    t.remove_column(b"ID").expect("present");
    assert_eq!(t.cols.len(), 4);
    assert_eq!(t.find_col(b"ID"), None);
    assert_eq!(t.find_col(b"Kind"), Some(0));
    assert_eq!(t.find_col(b"FileName"), Some(1));
    assert_eq!(t.find_col(b"Size"), Some(2));
    for row in &t.rows {
        assert_eq!(row.len(), 4);
    }
    match &t.rows[0][1] {
        Some(UTFValue::STRING(s)) => assert_eq!(s, &b"alpha.bin".to_vec()),
        _ => panic!("cells shifted wrongly"),
    }
}

#[test]
fn duplicate_column_name_is_refused() {
    let mut t = sample_table();
    let r = t.add_col(b"ID".to_vec(), UTFDataType::U32, UTFStorage::PER_ROW, Some(UTFValue::U32(0)));
    assert_eq!(r, Err(CpkError::DuplicateColumn));
}

#[test]
fn missing_column_is_a_lookup_error() {
    let mut t = sample_table();
    assert_eq!(t.remove_column(b"NoSuch"), Err(CpkError::MissingColumn));
    assert!(t.get_cell(0, b"NoSuch").is_err());
}

#[test]
fn bad_magic_is_refused() {
    let t = sample_table();
    let mut bytes = t.write().expect("encodable");
    bytes[0] = b'X';
    match UTF::read(&bytes, 0) {
        Err(e) => assert_eq!(e, CpkError::BadMagic),
        Ok(_) => panic!("accepted bad magic"),
    }
}

#[test]
fn unknown_type_tag_is_refused() {
    let t = table(
        "T",
        vec![col("A", UTFDataType::U8, UTFStorage::PER_ROW, None)],
        vec![vec![Some(UTFValue::U8(5))]],
    );
    let mut bytes = t.write().expect("encodable");
    // the flags byte of the first descriptor carries an unknown tag
    bytes[32] = 0x5F;
    match UTF::read(&bytes, 0) {
        Err(e) => assert_eq!(e, CpkError::BadFlags),
        Ok(_) => panic!("accepted bad flags"),
    }
}

#[test]
fn calculate_size_matches_emitted_length() {
    let mut t = sample_table();
    let n = t.calculate_size().expect("encodable");
    let bytes = t.write().expect("encodable");
    assert_eq!(bytes.len(), n);
    assert_eq!(t.row_len as usize, 4 + 4 + 8);
}

// A hand-built compressed payload: 0x10 header bytes, a backward
// bitstream, and a 0x100-byte verbatim block.
fn crilayla_fixture(decompressed: &[u8], stream: &[u8], verbatim: &[u8; 0x100]) -> Vec<u8> {
    let mut data = vec![0u8; 8];
    data.extend_from_slice(&(decompressed.len() as u32).to_le_bytes());
    let header_off = (0x10 + stream.len()) as u32 - 0x10;
    data.extend_from_slice(&header_off.to_le_bytes());
    data.extend_from_slice(stream);
    data.extend_from_slice(verbatim);
    data
}

#[test]
fn crilayla_literals_reproduce_original_bytes() {
    // Two literal bytes 0xAB then 0xCD, written back to front: the
    // stream carries, last byte first: 0 bit + 8 bits 0xAB, then
    // 0 bit + 8 bits 0xCD.
    // Bits consumed (MSB first, from the last stream byte backward):
    // 0 10101011 0 11001101 -> as bytes from the end: build manually.
    let mut bits: Vec<bool> = Vec::new();
    for target in [0xABu8, 0xCDu8] {
        bits.push(false);
        for k in (0..8).rev() {
            bits.push((target >> k) & 1 == 1);
        }
    }
    // pack bits into bytes, the first consumed bit is the MSB of the
    // LAST stream byte
    let mut stream: Vec<u8> = Vec::new();
    let mut cur = 0u8;
    let mut n = 0;
    for b in &bits {
        cur = (cur << 1) | (*b as u8);
        n += 1;
        if n == 8 {
            stream.push(cur);
            cur = 0;
            n = 0;
        }
    }
    if n > 0 {
        stream.push(cur << (8 - n));
    }
    stream.reverse();
    let verbatim = [0x5Au8; 0x100];
    let data = crilayla_fixture(&[0xAB, 0xCD], &stream, &verbatim);
    let out = cpkcodec::crilayla::crilayla_decompress(&data).expect("valid stream");
    assert_eq!(out.len(), 0x100 + 2);
    assert_eq!(&out[0..0x100], &verbatim[..]);
    // backward fill: the first decoded byte lands at the END
    assert_eq!(out[0x101], 0xAB);
    assert_eq!(out[0x100], 0xCD);
}

#[test]
fn crilayla_truncated_stream_is_an_error() {
    let verbatim = [0u8; 0x100];
    // claims 200 decompressed bytes: far more bits than the buffer holds,
    // so the backward cursor runs below the valid region
    let big = [7u8; 200];
    let data = crilayla_fixture(&big, &[], &verbatim);
    assert_eq!(
        cpkcodec::crilayla::crilayla_decompress(&data),
        Err(CpkError::OutOfBounds)
    );
}

fn u64_col(name: &str) -> UTFColumn {
    col(name, UTFDataType::U64, UTFStorage::PER_ROW, None)
}

/// A small but complete container: a one-row header with every field
/// the rebuild touches, a two-file catalog, and an empty opaque index.
fn sample_container() -> CPK {
    let header = table(
        "CpkHeader",
        vec![
            u64_col("TocOffset"),
            u64_col("ItocOffset"),
            u64_col("ContentOffset"),
            u64_col("ContentSize"),
            u64_col("EnabledPackedSize"),
            u64_col("EnabledDataSize"),
            u64_col("TocSize"),
            u64_col("ItocSize"),
            u64_col("Groups"),
            u64_col("EtocOffset"),
            u64_col("EtocSize"),
            u64_col("TocCrc"),
            u64_col("ItocCrc"),
            u64_col("GtocOffset"),
            u64_col("GtocSize"),
            u64_col("GtocCrc"),
        ],
        vec![(0..16).map(|_| Some(UTFValue::U64(0))).collect()],
    );
    let toc = table(
        "CpkTocInfo",
        vec![
            col("ID", UTFDataType::U32, UTFStorage::PER_ROW, None),
            col("FileName", UTFDataType::STRING, UTFStorage::PER_ROW, None),
            col("FileSize", UTFDataType::U32, UTFStorage::PER_ROW, None),
            col("ExtractSize", UTFDataType::U32, UTFStorage::PER_ROW, None),
            col("FileOffset", UTFDataType::U64, UTFStorage::PER_ROW, None),
        ],
        vec![
            vec![
                Some(UTFValue::U32(1)),
                Some(UTFValue::STRING(b"first.bin".to_vec())),
                Some(UTFValue::U32(0)),
                Some(UTFValue::U32(0)),
                Some(UTFValue::U64(0)),
            ],
            vec![
                Some(UTFValue::U32(2)),
                Some(UTFValue::STRING(b"second.bin".to_vec())),
                Some(UTFValue::U32(0)),
                Some(UTFValue::U32(0)),
                Some(UTFValue::U64(0)),
            ],
        ],
    );
    let itoc = table("CpkItocInfo", vec![], vec![]);
    CPK {
        header,
        toc,
        itoc,
    }
}

#[test]
fn rebuild_then_decode_keeps_ids_names_and_payloads() {
    let mut c = sample_container();
    let files: Vec<(u32, Vec<u8>)> = vec![
        (1, b"alpha payload".to_vec()),
        (2, b"the second payload, somewhat longer".to_vec()),
    ];
    let image = c.write_cpk(&files).expect("rebuild");

    let back = CPK::read(&image).expect("decodable container");
    let pairs = back.map_files(&image).expect("extractable");
    assert_eq!(pairs.len(), 2);
    assert_eq!(pairs[0].0.id, 1);
    assert_eq!(pairs[1].0.id, 2);
    assert_eq!(pairs[0].0.name, b"first.bin".to_vec());
    assert_eq!(pairs[1].0.name, b"second.bin".to_vec());
    assert_eq!(pairs[0].1, files[0].1);
    assert_eq!(pairs[1].1, files[1].1);
    // rebuilt payloads are stored uncompressed
    assert_eq!(pairs[0].0.file_size, pairs[0].0.extract_size);
}

#[test]
fn rebuild_content_size_is_the_sum_of_aligned_file_sizes() {
    let mut c = sample_container();
    let files: Vec<(u32, Vec<u8>)> = vec![
        (1, vec![7u8; 3000]),
        (2, vec![9u8; 100]),
    ];
    let image = c.write_cpk(&files).expect("rebuild");
    let back = CPK::read(&image).expect("decodable container");
    let content_size = match back.header.get_cell(0, b"ContentSize").expect("field") {
        UTFValue::U64(v) => *v,
        _ => panic!("wrong kind"),
    };
    // 3000 rounds to 4096, 100 rounds to 2048
    assert_eq!(content_size, 4096 + 2048);
    let packed = match back.header.get_cell(0, b"EnabledPackedSize").expect("field") {
        UTFValue::U64(v) => *v,
        _ => panic!("wrong kind"),
    };
    assert_eq!(packed, 3100);
    // the legacy columns are gone, the placeholders are present
    assert!(back.header.find_col(b"TocCrc").is_none());
    assert!(back.header.find_col(b"EnableTocCrc").is_some());
}

#[test]
fn rebuild_missing_file_for_a_row_is_a_lookup_error() {
    let mut c = sample_container();
    let files: Vec<(u32, Vec<u8>)> = vec![(1, b"only one".to_vec())];
    assert_eq!(c.write_cpk(&files), Err(CpkError::MissingFile));
}

#[test]
fn cpk_header_fields_drive_packet_lookup() {
    // A wrong outer tag is refused before any table parsing.
    let data = vec![0u8; 64];
    match CPK::read(&data) {
        Err(e) => assert_eq!(e, CpkError::BadMagic),
        Ok(_) => panic!("accepted bad container tag"),
    }
}

#[test]
fn byte_helpers_round_trip() {
    let mut v = Vec::new();
    cpkcodec::bytes::push_be32(&mut v, 0xDEADBEEF);
    assert_eq!(v, vec![0xDE, 0xAD, 0xBE, 0xEF]);
    assert_eq!(cpkcodec::bytes::be32_at(&v, 0), 0xDEADBEEF);
    let mut w = Vec::new();
    cpkcodec::bytes::push_le64(&mut w, 0x0102030405060708);
    assert_eq!(cpkcodec::bytes::le64_at(&w, 0), 0x0102030405060708);
    let mut p = Vec::new();
    cpkcodec::bytes::write_cstring(&mut p, b"abc");
    assert_eq!(cpkcodec::bytes::read_cstring(&p, 0).unwrap(), b"abc".to_vec());
    let trimmed = cpkcodec::bytes::read_string_trim(b"AB \t\r\n", 0, 6).unwrap();
    assert_eq!(trimmed, b"AB".to_vec());
    let mut q = Vec::new();
    cpkcodec::bytes::write_u32bi(&mut q, 0x01020304);
    assert_eq!(cpkcodec::bytes::read_u32bi(&q, 0).unwrap(), 0x01020304);
}
