use regionomics::stream::{decode_content, encode_content, StreamError};

#[test]
fn gz_round_trip_reproduces_bytes() {
    let data: Vec<u8> = b"region\tgene\tval\nchr1:1-2\tGENE1\t5\n".to_vec();
    let enc = encode_content("out/table.tsv.gz", &data);
    assert_ne!(enc, data);
    let dec = decode_content("out/table.tsv.gz", &enc).unwrap();
    assert_eq!(dec, data);
}

#[test]
fn magic_bytes_select_decompression_without_extension() {
    let data: Vec<u8> = b"payload without extension".to_vec();
    let enc = encode_content("x.gz", &data);
    assert_eq!(enc[0], 0x1f);
    assert_eq!(enc[1], 0x8b);
    let dec = decode_content("plain_name", &enc).unwrap();
    assert_eq!(dec, data);
}

#[test]
fn gz_named_garbage_fails() {
    let garbage: Vec<u8> = b"this is not gzip data".to_vec();
    assert_eq!(decode_content("broken.gz", &garbage), Err(StreamError::IoError));
}

#[test]
fn plain_content_passes_through() {
    let data: Vec<u8> = b"hello world".to_vec();
    assert_eq!(decode_content("notes.txt", &data).unwrap(), data);
    assert_eq!(encode_content("notes.txt", &data), data);
}

#[test]
fn empty_data_round_trips_through_gzip() {
    let data: Vec<u8> = Vec::new();
    let enc = encode_content("empty.gz", &data);
    assert_eq!(decode_content("empty.gz", &enc).unwrap(), data);
}

#[test]
fn short_stream_cannot_be_probed() {
    let one_byte: Vec<u8> = vec![0x1f];
    assert_eq!(decode_content("stub", &one_byte), Err(StreamError::IoError));
}
