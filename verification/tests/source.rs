use assembly::fdb::source::{ByteSource, IoError};

#[test]
fn new_source_starts_at_zero() {
    let source = ByteSource::new(vec![1, 2, 3]);
    assert_eq!(source.len(), 3);
    assert_eq!(source.position(), 0);
    assert_eq!(source.into_inner(), vec![1, 2, 3]);
}

#[test]
fn seek_accepts_any_offset() {
    let mut source = ByteSource::new(vec![1, 2, 3]);
    source.seek(2);
    assert_eq!(source.position(), 2);
    source.seek(1_000_000);
    assert_eq!(source.position(), 1_000_000);
    source.seek(u64::MAX);
    assert_eq!(source.position(), u64::MAX);
    source.seek(0);
    assert_eq!(source.position(), 0);
}

#[test]
fn read_exact_fills_the_buffer_and_moves_on() {
    let mut source = ByteSource::new(vec![10, 11, 12, 13, 14]);
    source.seek(1);
    let mut buf = vec![0u8; 3];
    assert_eq!(source.read_exact(&mut buf), Ok(()));
    assert_eq!(buf, vec![11, 12, 13]);
    assert_eq!(source.position(), 4);
    let mut one = vec![0u8; 1];
    assert_eq!(source.read_exact(&mut one), Ok(()));
    assert_eq!(one, vec![14]);
    assert_eq!(source.position(), 5);
}

#[test]
fn short_read_is_an_error_and_writes_nothing() {
    let mut source = ByteSource::new(vec![10, 11, 12, 13, 14]);
    source.seek(3);
    let mut buf = vec![7u8; 3];
    assert_eq!(source.read_exact(&mut buf), Err(IoError::UnexpectedEof));
    assert_eq!(buf, vec![7, 7, 7]);
    assert_eq!(source.position(), 5);
}

#[test]
fn read_behind_the_end_fails_and_leaves_the_cursor() {
    let mut source = ByteSource::new(vec![10, 11]);
    source.seek(9);
    let mut buf = vec![0u8; 1];
    assert_eq!(source.read_exact(&mut buf), Err(IoError::UnexpectedEof));
    assert_eq!(source.position(), 9);
}

#[test]
fn read_of_nothing_always_succeeds() {
    let mut source = ByteSource::new(vec![10, 11]);
    let mut buf: Vec<u8> = Vec::new();
    source.seek(2);
    assert_eq!(source.read_exact(&mut buf), Ok(()));
    assert_eq!(source.position(), 2);
    source.seek(50);
    assert_eq!(source.read_exact(&mut buf), Ok(()));
    assert_eq!(source.position(), 50);
}

#[test]
fn read_to_the_last_byte_succeeds() {
    let mut source = ByteSource::new(vec![1, 2, 3, 4]);
    let mut buf = vec![0u8; 4];
    assert_eq!(source.read_exact(&mut buf), Ok(()));
    assert_eq!(buf, vec![1, 2, 3, 4]);
    assert_eq!(source.position(), 4);
    assert_eq!(source.read_exact(&mut buf), Err(IoError::UnexpectedEof));
    assert_eq!(source.position(), 4);
}

#[test]
fn read_until_takes_the_delimiter_too() {
    let mut source = ByteSource::new(vec![5, 6, 0, 7, 0]);
    let mut out = vec![9u8];
    assert_eq!(source.read_until(0, &mut out), 3);
    assert_eq!(out, vec![9, 5, 6, 0]);
    assert_eq!(source.position(), 3);
    assert_eq!(source.read_until(0, &mut out), 2);
    assert_eq!(out, vec![9, 5, 6, 0, 7, 0]);
    assert_eq!(source.position(), 5);
}

#[test]
fn read_until_without_delimiter_takes_the_rest() {
    let mut source = ByteSource::new(vec![5, 6, 7]);
    source.seek(1);
    let mut out = Vec::new();
    assert_eq!(source.read_until(0, &mut out), 2);
    assert_eq!(out, vec![6, 7]);
    assert_eq!(source.position(), 3);
    assert_eq!(source.read_until(0, &mut out), 0);
    assert_eq!(out, vec![6, 7]);
    assert_eq!(source.position(), 3);
}

#[test]
fn read_until_behind_the_end_takes_nothing() {
    let mut source = ByteSource::new(vec![5, 0]);
    source.seek(8);
    let mut out = Vec::new();
    assert_eq!(source.read_until(0, &mut out), 0);
    assert!(out.is_empty());
    assert_eq!(source.position(), 8);
}

#[test]
fn read_until_stops_at_the_first_delimiter() {
    let mut source = ByteSource::new(vec![0x2C, 1, 0x2C, 0x2C]);
    let mut out = Vec::new();
    assert_eq!(source.read_until(0x2C, &mut out), 1);
    assert_eq!(out, vec![0x2C]);
    assert_eq!(source.read_until(0x2C, &mut out), 2);
    assert_eq!(out, vec![0x2C, 1, 0x2C]);
    assert_eq!(source.position(), 3);
}
