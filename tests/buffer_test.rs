use contracts::buffer::Buffer;

#[test]
fn test_buffer() {
    let buffer = Buffer {
        contents: vec![0, 1, 2, 3],
    };
    assert_eq!(buffer.contents[0], 0);
    assert_eq!(buffer.contents[1], 1);
    assert_eq!(buffer.contents[2], 2);
    assert_eq!(buffer.contents[3], 3);
}

#[test]
fn test_buffer_as_u64() {
    let buffer = Buffer {
        contents: vec![0, 0, 0, 0, 0, 0, 0, 123],
    };
    let buffer_u64 = buffer.as_u64();
    assert_eq!(buffer_u64, Ok(123));

    let buffer = Buffer {
        contents: vec![0, 0, 0, 0, 0, 0, 1, 0],
    };
    let buffer_u64 = buffer.as_u64();
    assert_eq!(buffer_u64, Ok(256));
}

#[test]
fn test_buffer_load_u64() {
    let buffer_u64: u64 = 256;
    let mut buffer = Buffer {
        contents: Vec::new(),
    };
    buffer.load_u64(buffer_u64);
    assert_eq!(buffer.contents.len(), 8);
    assert_eq!(buffer.as_u64(), Ok(256));
}

#[test]
fn load_u64_is_big_endian() {
    let mut buffer = Buffer { contents: vec![9, 9] };
    buffer.load_u64(0x0102_0304_0506_0708);
    assert_eq!(buffer.contents, vec![1, 2, 3, 4, 5, 6, 7, 8]);
    buffer.load_u64(u64::MAX);
    assert_eq!(buffer.contents, vec![255; 8]);
}

#[test]
fn eight_bytes_round_trip() {
    let bytes = vec![0xde, 0xad, 0xbe, 0xef, 0x00, 0x11, 0x22, 0x33];
    let buffer = Buffer { contents: bytes.clone() };
    let value = buffer.as_u64().unwrap();
    assert_eq!(value, 0xdead_beef_0011_2233);
    let mut again = Buffer { contents: Vec::new() };
    again.load_u64(value);
    assert_eq!(again.contents, bytes);
}

#[test]
fn as_u64_rejects_other_lengths() {
    for len in [0usize, 1, 7, 9, 16] {
        let buffer = Buffer { contents: vec![0; len] };
        assert_eq!(buffer.as_u64(), Err("Invalid length"));
    }
}
