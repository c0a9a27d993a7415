use assembly::fdb::file::{
    FDBBucketHeader, FDBColumnHeader, FDBFieldData, FDBHeader, FDBRowHeader,
    FDBRowHeaderListEntry, FDBTableDataHeader, FDBTableDefHeader, FDBTableHeader, SENTINEL,
};
use assembly::fdb::parser::{
    read_le_i64, read_le_u32, stop_short, write_le_u32, DecodeFailure, ErrorKind, ParseFDB,
};
use assembly::fdb::reader::bytes;

#[test]
fn le_u32_reads_lowest_byte_first() {
    assert_eq!(read_le_u32(&[0x78, 0x56, 0x34, 0x12], 0), 0x1234_5678);
    assert_eq!(read_le_u32(&[0xFF, 0xFF, 0xFF, 0xFF], 0), u32::MAX);
    assert_eq!(read_le_u32(&[9, 9, 1, 0, 0, 0], 2), 1);
    assert_eq!(read_le_u32(&[0, 0, 0, 0x80], 0), 0x8000_0000);
}

#[test]
fn le_u32_writes_lowest_byte_first() {
    let mut out = vec![0xAA];
    write_le_u32(&mut out, 0x1234_5678);
    assert_eq!(out, vec![0xAA, 0x78, 0x56, 0x34, 0x12]);
    write_le_u32(&mut out, 0);
    assert_eq!(out.len(), 9);
    assert_eq!(&out[5..], &[0, 0, 0, 0]);
}

#[test]
fn le_u32_agrees_with_std() {
    for value in [0u32, 1, 255, 256, 65_535, 65_536, 0x00FF_FFFF, 0x0100_0000, 0xDEAD_BEEF, u32::MAX] {
        let mut out = Vec::new();
        write_le_u32(&mut out, value);
        assert_eq!(out, value.to_le_bytes().to_vec());
        assert_eq!(read_le_u32(&out, 0), value);
    }
}

#[test]
fn le_i64_reads_twos_complement() {
    assert_eq!(read_le_i64(&[1, 0, 0, 0, 0, 0, 0, 0], 0), 1);
    assert_eq!(read_le_i64(&[0xFF; 8], 0), -1);
    assert_eq!(read_le_i64(&[0, 0, 0, 0, 0, 0, 0, 0x80], 0), i64::MIN);
    assert_eq!(read_le_i64(&[0xFF, 0xFF, 0xFF, 0xFF, 0xFF, 0xFF, 0xFF, 0x7F], 0), i64::MAX);
    assert_eq!(read_le_i64(&[7, 0xFE, 0xFF, 0xFF, 0xFF, 0xFF, 0xFF, 0xFF, 0xFF], 1), -2);
    for value in [0i64, -1, 1, 0x0123_4567_89AB_CDEF, -0x0123_4567_89AB_CDEF, i64::MIN, i64::MAX] {
        assert_eq!(read_le_i64(&value.to_le_bytes(), 0), value);
    }
}

#[test]
fn short_input_stops_before_the_broken_field() {
    assert_eq!(stop_short(0), DecodeFailure { offset: 0, code: ErrorKind::Eof });
    assert_eq!(stop_short(3), DecodeFailure { offset: 0, code: ErrorKind::Eof });
    assert_eq!(stop_short(4), DecodeFailure { offset: 4, code: ErrorKind::Eof });
    assert_eq!(stop_short(7), DecodeFailure { offset: 4, code: ErrorKind::Eof });
    assert_eq!(stop_short(11), DecodeFailure { offset: 8, code: ErrorKind::Eof });
}

#[test]
fn header_decodes_its_two_fields() {
    let r = FDBHeader::parse(&[2, 0, 0, 0, 8, 0, 0, 0]);
    assert_eq!(r, Ok(FDBHeader { table_count: 2, table_header_list_addr: 8 }));
}

#[test]
fn decoding_takes_only_the_record() {
    let r = FDBBucketHeader::parse(&[1, 2, 3, 4, 5, 6, 7, 8]);
    assert_eq!(r, Ok(FDBBucketHeader { row_header_list_head_addr: 0x0403_0201 }));
}

#[test]
fn short_records_fail_with_eof() {
    assert_eq!(FDBHeader::parse(&[]), Err(DecodeFailure { offset: 0, code: ErrorKind::Eof }));
    assert_eq!(
        FDBHeader::parse(&[1, 0, 0, 0, 2, 0]),
        Err(DecodeFailure { offset: 4, code: ErrorKind::Eof })
    );
    assert_eq!(
        FDBTableHeader::parse(&[0; 11]),
        Err(DecodeFailure { offset: 8, code: ErrorKind::Eof })
    );
    assert_eq!(
        FDBBucketHeader::parse(&[0; 3]),
        Err(DecodeFailure { offset: 0, code: ErrorKind::Eof })
    );
    assert_eq!(
        FDBFieldData::parse(&[0; 7]),
        Err(DecodeFailure { offset: 4, code: ErrorKind::Eof })
    );
}

#[test]
fn widths_are_those_of_the_layout() {
    assert_eq!(FDBHeader::width(), 8);
    assert_eq!(FDBTableHeader::width(), 12);
    assert_eq!(FDBTableDefHeader::width(), 8);
    assert_eq!(FDBColumnHeader::width(), 8);
    assert_eq!(FDBTableDataHeader::width(), 8);
    assert_eq!(FDBBucketHeader::width(), 4);
    assert_eq!(FDBRowHeaderListEntry::width(), 8);
    assert_eq!(FDBRowHeader::width(), 8);
    assert_eq!(FDBFieldData::width(), 8);
}

#[test]
fn buffers_are_zeroed_and_as_wide_as_the_record() {
    assert_eq!(bytes::<FDBHeader>(), vec![0u8; 8]);
    assert_eq!(bytes::<FDBTableHeader>(), vec![0u8; 12]);
    assert_eq!(bytes::<FDBBucketHeader>(), vec![0u8; 4]);
    assert_eq!(bytes::<FDBFieldData>(), vec![0u8; 8]);
}

#[test]
fn fields_are_laid_out_in_order() {
    let table = FDBTableHeader {
        name_addr: 0x11,
        table_def_header_addr: 0x2222,
        table_data_header_addr: 0x3333_3333,
    };
    assert_eq!(
        table.to_bytes(),
        vec![0x11, 0, 0, 0, 0x22, 0x22, 0, 0, 0x33, 0x33, 0x33, 0x33]
    );
    let column = FDBColumnHeader { type_tag: 4, name_addr: 0x0102_0304 };
    assert_eq!(column.to_bytes(), vec![4, 0, 0, 0, 4, 3, 2, 1]);
    let entry = FDBRowHeaderListEntry { row_header_addr: 1, row_header_list_next_addr: SENTINEL };
    assert_eq!(entry.to_bytes(), vec![1, 0, 0, 0, 0xFF, 0xFF, 0xFF, 0xFF]);
}

#[test]
fn every_record_decodes_from_its_encoding() {
    let header = FDBHeader { table_count: 0xDEAD_BEEF, table_header_list_addr: 8 };
    assert_eq!(FDBHeader::parse(&header.to_bytes()), Ok(header));
    let table = FDBTableHeader {
        name_addr: 1,
        table_def_header_addr: u32::MAX,
        table_data_header_addr: 0x8000_0000,
    };
    assert_eq!(FDBTableHeader::parse(&table.to_bytes()), Ok(table));
    let def = FDBTableDefHeader { column_count: 12, column_header_list_addr: 0x0001_0000 };
    assert_eq!(FDBTableDefHeader::parse(&def.to_bytes()), Ok(def));
    let column = FDBColumnHeader { type_tag: 8, name_addr: 255 };
    assert_eq!(FDBColumnHeader::parse(&column.to_bytes()), Ok(column));
    let data = FDBTableDataHeader { bucket_count: 256, bucket_header_list_addr: 0 };
    assert_eq!(FDBTableDataHeader::parse(&data.to_bytes()), Ok(data));
    let bucket = FDBBucketHeader { row_header_list_head_addr: SENTINEL };
    assert_eq!(FDBBucketHeader::parse(&bucket.to_bytes()), Ok(bucket));
    let entry = FDBRowHeaderListEntry { row_header_addr: 77, row_header_list_next_addr: 99 };
    assert_eq!(FDBRowHeaderListEntry::parse(&entry.to_bytes()), Ok(entry));
    let row = FDBRowHeader { field_count: 3, field_data_list_addr: 0x00FF_FF00 };
    assert_eq!(FDBRowHeader::parse(&row.to_bytes()), Ok(row));
    let field = FDBFieldData { type_tag: 1, value: 0xFFFF_FFFE };
    assert_eq!(FDBFieldData::parse(&field.to_bytes()), Ok(field));
}

#[test]
fn sentinel_is_all_ones() {
    assert_eq!(SENTINEL, 0xFFFF_FFFF);
    assert_eq!(SENTINEL, u32::MAX);
}
