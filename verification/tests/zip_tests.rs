use argus::zip::{
    extract_csv_from_zip, find_signature_reverse, minimal_inflate, read_u16_le, read_u32_le,
    BitReader,
};

#[test]
fn test_zip_read_helpers() {
    let data = [0x12, 0x34, 0x56, 0x78, 0xAB];
    assert_eq!(read_u16_le(&data, 0), 0x3412);
    assert_eq!(read_u32_le(&data, 0), 0x78563412);
}

#[test]
fn test_find_signature_reverse() {
    let sig = [0x50, 0x4b, 0x05, 0x06];
    let mut data = vec![0u8; 100];
    // Place signature at offset 80.
    data[80..84].copy_from_slice(&sig);
    assert_eq!(find_signature_reverse(&data, &sig), Some(80));

    // No signature.
    let empty = vec![0u8; 100];
    assert_eq!(find_signature_reverse(&empty, &sig), None);
}

#[test]
fn test_extract_stored_zip() {
    // Build a minimal ZIP with a single stored (uncompressed) file.
    let file_data = b"hello,world\n";
    let filename = b"test.csv";

    let mut zip = Vec::new();

    // --- Local File Header ---
    let local_offset = zip.len();
    zip.extend_from_slice(&[0x50, 0x4b, 0x03, 0x04]); // signature
    zip.extend_from_slice(&[0x14, 0x00]); // version needed
    zip.extend_from_slice(&[0x00, 0x00]); // flags
    zip.extend_from_slice(&[0x00, 0x00]); // compression method: stored
    zip.extend_from_slice(&[0x00, 0x00]); // mod time
    zip.extend_from_slice(&[0x00, 0x00]); // mod date
    zip.extend_from_slice(&[0x00, 0x00, 0x00, 0x00]); // crc32 (unused for test)
    zip.extend_from_slice(&(file_data.len() as u32).to_le_bytes()); // compressed size
    zip.extend_from_slice(&(file_data.len() as u32).to_le_bytes()); // uncompressed size
    zip.extend_from_slice(&(filename.len() as u16).to_le_bytes()); // filename length
    zip.extend_from_slice(&[0x00, 0x00]); // extra field length
    zip.extend_from_slice(filename);
    zip.extend_from_slice(file_data);

    // --- Central Directory File Header ---
    let cd_offset = zip.len();
    zip.extend_from_slice(&[0x50, 0x4b, 0x01, 0x02]); // signature
    zip.extend_from_slice(&[0x14, 0x00]); // version made by
    zip.extend_from_slice(&[0x14, 0x00]); // version needed
    zip.extend_from_slice(&[0x00, 0x00]); // flags
    zip.extend_from_slice(&[0x00, 0x00]); // compression method: stored
    zip.extend_from_slice(&[0x00, 0x00]); // mod time
    zip.extend_from_slice(&[0x00, 0x00]); // mod date
    zip.extend_from_slice(&[0x00, 0x00, 0x00, 0x00]); // crc32
    zip.extend_from_slice(&(file_data.len() as u32).to_le_bytes()); // compressed size
    zip.extend_from_slice(&(file_data.len() as u32).to_le_bytes()); // uncompressed size
    zip.extend_from_slice(&(filename.len() as u16).to_le_bytes()); // filename length
    zip.extend_from_slice(&[0x00, 0x00]); // extra field length
    zip.extend_from_slice(&[0x00, 0x00]); // file comment length
    zip.extend_from_slice(&[0x00, 0x00]); // disk number start
    zip.extend_from_slice(&[0x00, 0x00]); // internal file attributes
    zip.extend_from_slice(&[0x00, 0x00, 0x00, 0x00]); // external file attributes
    zip.extend_from_slice(&(local_offset as u32).to_le_bytes()); // relative offset of local header

    let cd_size = zip.len() - cd_offset;

    // --- End of Central Directory ---
    zip.extend_from_slice(&[0x50, 0x4b, 0x05, 0x06]); // signature
    zip.extend_from_slice(&[0x00, 0x00]); // disk number
    zip.extend_from_slice(&[0x00, 0x00]); // disk where CD starts
    zip.extend_from_slice(&[0x01, 0x00]); // number of CD records on this disk
    zip.extend_from_slice(&[0x01, 0x00]); // total number of CD records
    zip.extend_from_slice(&(cd_size as u32).to_le_bytes()); // size of CD
    zip.extend_from_slice(&(cd_offset as u32).to_le_bytes()); // offset of start of CD
    zip.extend_from_slice(&[0x00, 0x00]); // comment length

    let result = extract_csv_from_zip(&zip).unwrap();
    assert_eq!(result, "hello,world\n");
}

#[test]
fn test_bit_reader_basic() {
    let data = [0b10110100u8, 0b01100001u8];
    let mut reader = BitReader::new(&data);
    // Read 3 bits from LSB of first byte: 100 -> 0b100 = 4
    assert_eq!(reader.read_bits(3).unwrap(), 0b100);
    // Next 5 bits in LSB order: (0,1,1,0,1) = 0b10110 = 22
    assert_eq!(reader.read_bits(5).unwrap(), 0b10110);
}

#[test]
fn inflate_decodes_compressed_stream() {
    // A raw DEFLATE stream of "hello world, hello world, hello world\n".
    let compressed: Vec<u8> = vec![
        203, 72, 205, 201, 201, 87, 40, 207, 47, 202, 73, 209, 81, 200, 192, 193, 225, 2, 0,
    ];
    let out = minimal_inflate(&compressed, 38).unwrap();
    assert_eq!(out, b"hello world, hello world, hello world\n".to_vec());
}

#[test]
fn inflate_rejects_truncated_stream() {
    let compressed: Vec<u8> = vec![203, 72, 205];
    assert!(minimal_inflate(&compressed, 38).is_err());
}

#[test]
fn inflate_decodes_dynamic_huffman_stream() {
    // A raw DEFLATE stream using dynamic Huffman tables.
    let compressed: Vec<u8> = vec![
        237, 204, 75, 22, 67, 64, 20, 132, 225, 185, 85, 212, 18, 200, 131, 100,
        57, 68, 163, 189, 46, 173, 155, 176, 122, 119, 17, 38, 206, 169, 113, 253,
        95, 249, 198, 96, 14, 246, 215, 161, 112, 178, 141, 168, 228, 143, 54, 12,
        211, 2, 89, 141, 131, 215, 185, 207, 143, 29, 165, 212, 136, 147, 199, 243,
        245, 78, 179, 207, 55, 242, 100, 100, 100, 100, 100, 100, 100, 100, 87, 179,
        41, 87, 49, 236, 40, 52, 223, 172, 111, 80, 217, 213, 104, 116, 152, 17,
        189, 157, 131, 56, 125, 169, 23, 118, 236, 216, 221, 184, 59, 1,
    ];
    let mut expected = Vec::new();
    for _ in 0..40 {
        expected.extend_from_slice(b"the quick brown fox jumps over the lazy dog 0123456789\n");
    }
    for _ in 0..25 {
        expected.extend_from_slice(b"pack my box with five dozen liquor jugs\n");
    }
    let out = minimal_inflate(&compressed, expected.len()).unwrap();
    assert_eq!(out, expected);
}

#[test]
fn zip_errors_are_agent_errors() {
    match extract_csv_from_zip(&[]) {
        Err(argus::model::ArgusError::Agent { agent, .. }) => assert_eq!(agent, "gdelt"),
        _ => panic!("expected an agent error"),
    }
}
