use assembly::fdb::file::{FDBRowHeaderListEntry, SENTINEL};
use assembly::fdb::parser::ParseFDB;
use assembly::fdb::reader::{DatabaseReader, FileError};
use assembly::fdb::source::{ByteSource, IoError};

fn put_entry(data: &mut Vec<u8>, at: usize, row: u32, next: u32) {
    let bytes = FDBRowHeaderListEntry { row_header_addr: row, row_header_list_next_addr: next }
        .to_bytes();
    if data.len() < at + 8 {
        data.resize(at + 8, 0);
    }
    data[at..at + 8].copy_from_slice(&bytes);
}

fn three_nodes() -> Vec<u8> {
    let mut data = Vec::new();
    put_entry(&mut data, 16, 1000, 40);
    put_entry(&mut data, 40, 2000, 24);
    put_entry(&mut data, 24, 3000, SENTINEL);
    data
}

#[test]
fn empty_bucket_yields_nothing() {
    let mut source = ByteSource::new(three_nodes());
    source.seek(5);
    let mut walk = source.get_row_header_addr_iterator(SENTINEL);
    assert_eq!(walk.next(), None);
    assert_eq!(walk.next(), None);
    assert_eq!(walk.take(10), Vec::new());
    assert_eq!(source.position(), 5);
}

#[test]
fn starting_a_walk_reads_nothing() {
    let mut source = ByteSource::new(three_nodes());
    source.seek(3);
    let walk = source.get_row_header_addr_iterator(16);
    assert_eq!(walk.next_addr, 16);
    assert_eq!(walk.file.position(), 3);
}

#[test]
fn chain_of_three_yields_rows_in_order() {
    let mut source = ByteSource::new(three_nodes());
    let mut walk = source.get_row_header_addr_iterator(16);
    assert_eq!(walk.next(), Some(Ok(1000)));
    assert_eq!(walk.next_addr, 40);
    assert_eq!(walk.next(), Some(Ok(2000)));
    assert_eq!(walk.next_addr, 24);
    assert_eq!(walk.next(), Some(Ok(3000)));
    assert_eq!(walk.next_addr, SENTINEL);
    assert_eq!(walk.next(), None);
    assert_eq!(walk.next(), None);
    assert_eq!(source.position(), 32);
}

#[test]
fn take_collects_the_chain() {
    let mut source = ByteSource::new(three_nodes());
    let mut walk = source.get_row_header_addr_iterator(16);
    assert_eq!(walk.take(10), vec![Ok(1000), Ok(2000), Ok(3000)]);
    assert_eq!(walk.next_addr, SENTINEL);
    assert_eq!(walk.take(10), Vec::new());
}

#[test]
fn take_stops_at_the_limit() {
    let mut source = ByteSource::new(three_nodes());
    let mut walk = source.get_row_header_addr_iterator(16);
    assert_eq!(walk.take(0), Vec::new());
    assert_eq!(walk.next_addr, 16);
    assert_eq!(walk.take(2), vec![Ok(1000), Ok(2000)]);
    assert_eq!(walk.next_addr, 24);
    assert_eq!(walk.take(1), vec![Ok(3000)]);
    assert_eq!(walk.next_addr, SENTINEL);
}

#[test]
fn failure_in_the_middle_ends_the_walk() {
    let mut data = three_nodes();
    put_entry(&mut data, 16, 1000, 5000);
    let mut source = ByteSource::new(data);
    let mut walk = source.get_row_header_addr_iterator(16);
    assert_eq!(walk.next(), Some(Ok(1000)));
    assert_eq!(walk.next(), Some(Err(FileError::Read(IoError::UnexpectedEof))));
    assert_eq!(walk.next_addr, SENTINEL);
    assert_eq!(walk.next(), None);
    assert_eq!(walk.next(), None);

    let mut again = source.get_row_header_addr_iterator(16);
    assert_eq!(
        again.take(10),
        vec![Ok(1000), Err(FileError::Read(IoError::UnexpectedEof))]
    );
    assert_eq!(again.take(10), Vec::new());
}

#[test]
fn failure_at_the_head_is_the_only_item() {
    let mut source = ByteSource::new(three_nodes());
    let mut walk = source.get_row_header_addr_iterator(45);
    assert_eq!(walk.take(3), vec![Err(FileError::Read(IoError::UnexpectedEof))]);
    assert_eq!(walk.next(), None);
}

#[test]
fn walk_on_a_cycle_goes_on_until_the_limit() {
    let mut data = Vec::new();
    put_entry(&mut data, 0, 11, 8);
    put_entry(&mut data, 8, 22, 0);
    let mut source = ByteSource::new(data);
    let mut walk = source.get_row_header_addr_iterator(0);
    assert_eq!(walk.take(5), vec![Ok(11), Ok(22), Ok(11), Ok(22), Ok(11)]);
    assert_eq!(walk.next_addr, 8);
    assert_eq!(walk.next(), Some(Ok(22)));
}

#[test]
fn walk_can_be_left_at_any_point() {
    let mut source = ByteSource::new(three_nodes());
    {
        let mut walk = source.get_row_header_addr_iterator(16);
        assert_eq!(walk.next(), Some(Ok(1000)));
    }
    assert_eq!(source.position(), 24);
    assert_eq!(
        source.get_row_header_list_entry(24),
        Ok(FDBRowHeaderListEntry { row_header_addr: 3000, row_header_list_next_addr: SENTINEL })
    );
}
