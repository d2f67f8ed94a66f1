use sqlite_reader::errors::DbError;
use sqlite_reader::types::Varint;

#[test]
fn types_test_varint_less_than_240() {
    let varint = Varint::new(&vec![0x2B]).unwrap();
    assert_eq!((43, 1), (varint.varint, varint.size));
}

#[test]
fn types_test_varint_multi_bytes() {
    let varint = Varint::new(&vec![0x81, 0x47]).unwrap();
    assert_eq!((199, 2), (varint.varint, varint.size));
}

#[test]
fn types_read_nine_byte_varint() {
    let varint = Varint::new(&vec![0xff; 9]).unwrap();
    assert_eq!((-1, 9), (varint.varint, varint.size));
}

#[test]
fn varint_consumes_exactly_its_width() {
    // The decoder reads the same value whether or not bytes follow the
    // terminating byte.
    let with_tail = Varint::new(&vec![0x81, 0x47, 0xFF, 0x00]).unwrap();
    assert_eq!((199, 2), (with_tail.varint, with_tail.size));
    let exact = Varint::new(&vec![0x81, 0x47]).unwrap();
    assert_eq!(exact.varint, with_tail.varint);
    assert_eq!(exact.size, with_tail.size);
}

#[test]
fn truncated_varint_is_rejected() {
    // A continuation byte with nothing after it is shorter than its
    // encoded width.
    assert!(matches!(Varint::new(&vec![0xFF]), Err(DbError::FormatCorruption)));
    assert!(matches!(Varint::new(&vec![0xFF, 0xFF]), Err(DbError::FormatCorruption)));
    assert!(matches!(Varint::new(&vec![]), Err(DbError::FormatCorruption)));
    // Eight continuation bytes demand a ninth byte.
    assert!(matches!(Varint::new(&vec![0x80; 8]), Err(DbError::FormatCorruption)));
    // With the ninth byte present the encoding is complete.
    let nine = Varint::new(&vec![0x80, 0x80, 0x80, 0x80, 0x80, 0x80, 0x80, 0x80, 0x01]).unwrap();
    assert_eq!((1, 9), (nine.varint, nine.size));
}

#[test]
fn varint_two_byte_boundary() {
    // 0x81 0x00 is 128: one continuation byte then a clear high bit.
    let v = Varint::new(&vec![0x81, 0x00]).unwrap();
    assert_eq!((128, 2), (v.varint, v.size));
}
