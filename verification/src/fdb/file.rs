//! The records of an FDB file. Every record is a run of four-byte fields,
//! each a number with its lowest byte first.

use super::parser::{
    le_u32, lemma_u32_round_trip, read_le_u32, short_input, stop_short, u32_le_bytes,
    write_le_u32, DecodeFailure, ParseFDB,
};
use vstd::prelude::*;

verus! {

/// The address that stands for "no further element".
pub const SENTINEL: u32 = 0xFFFF_FFFF;

/// The root of a file: where the list of tables stands and how many it holds.
#[derive(Debug, Clone, Copy, PartialEq, Eq, Structural)]
pub struct FDBHeader {
    /// The number of tables.
    pub table_count: u32,
    /// The address of the list of table headers.
    pub table_header_list_addr: u32,
}

/// One table: its name and the addresses of its two headers.
#[derive(Debug, Clone, Copy, PartialEq, Eq, Structural)]
pub struct FDBTableHeader {
    /// The address of the table's name.
    pub name_addr: u32,
    /// The address of the table's definition header.
    pub table_def_header_addr: u32,
    /// The address of the table's data header.
    pub table_data_header_addr: u32,
}

/// The schema side of a table: its columns.
#[derive(Debug, Clone, Copy, PartialEq, Eq, Structural)]
pub struct FDBTableDefHeader {
    /// The number of columns.
    pub column_count: u32,
    /// The address of the list of column headers.
    pub column_header_list_addr: u32,
}

/// One column: the type of its values and its name.
#[derive(Debug, Clone, Copy, PartialEq, Eq, Structural)]
pub struct FDBColumnHeader {
    /// The tag of the column's value type.
    pub type_tag: u32,
    /// The address of the column's name.
    pub name_addr: u32,
}

/// The data side of a table: its hash buckets.
#[derive(Debug, Clone, Copy, PartialEq, Eq, Structural)]
pub struct FDBTableDataHeader {
    /// The number of buckets.
    pub bucket_count: u32,
    /// The address of the list of bucket headers.
    pub bucket_header_list_addr: u32,
}

/// One hash bucket: the head of its chain of rows.
#[derive(Debug, Clone, Copy, PartialEq, Eq, Structural)]
pub struct FDBBucketHeader {
    /// The address of the first entry of the chain, or the sentinel.
    pub row_header_list_head_addr: u32,
}

/// One entry of a bucket's chain of rows.
#[derive(Debug, Clone, Copy, PartialEq, Eq, Structural)]
pub struct FDBRowHeaderListEntry {
    /// The address of the row's header.
    pub row_header_addr: u32,
    /// The address of the next entry, or the sentinel.
    pub row_header_list_next_addr: u32,
}

/// One row: its fields.
#[derive(Debug, Clone, Copy, PartialEq, Eq, Structural)]
pub struct FDBRowHeader {
    /// The number of fields.
    pub field_count: u32,
    /// The address of the list of field values.
    pub field_data_list_addr: u32,
}

/// One field of a row.
#[derive(Debug, Clone, Copy, PartialEq, Eq, Structural)]
pub struct FDBFieldData {
    /// The tag of the value's type.
    pub type_tag: u32,
    /// The value itself, or the address where it stands.
    pub value: u32,
}

/// The bytes of one field hold the field.
pub proof fn lemma_one_field(a: u32)
    ensures
        u32_le_bytes(a).len() == 4,
        le_u32(u32_le_bytes(a), 0) == a,
{
    lemma_u32_round_trip(Seq::empty(), a, Seq::empty());
}

/// The bytes of two fields, one after the other, hold both.
pub proof fn lemma_two_fields(a: u32, b: u32)
    ensures
        (u32_le_bytes(a) + u32_le_bytes(b)).len() == 8,
        le_u32(u32_le_bytes(a) + u32_le_bytes(b), 0) == a,
        le_u32(u32_le_bytes(a) + u32_le_bytes(b), 4) == b,
{
    lemma_u32_round_trip(Seq::empty(), a, u32_le_bytes(b));
    lemma_u32_round_trip(u32_le_bytes(a), b, Seq::empty());
}

/// The bytes of three fields, one after the other, hold all three.
pub proof fn lemma_three_fields(a: u32, b: u32, c: u32)
    ensures
        (u32_le_bytes(a) + u32_le_bytes(b) + u32_le_bytes(c)).len() == 12,
        le_u32(u32_le_bytes(a) + u32_le_bytes(b) + u32_le_bytes(c), 0) == a,
        le_u32(u32_le_bytes(a) + u32_le_bytes(b) + u32_le_bytes(c), 4) == b,
        le_u32(u32_le_bytes(a) + u32_le_bytes(b) + u32_le_bytes(c), 8) == c,
{
    lemma_u32_round_trip(Seq::empty(), a, u32_le_bytes(b) + u32_le_bytes(c));
    lemma_u32_round_trip(u32_le_bytes(a), b, u32_le_bytes(c));
    lemma_u32_round_trip(u32_le_bytes(a) + u32_le_bytes(b), c, Seq::empty());
}

impl ParseFDB for FDBHeader {
    open spec fn byte_count() -> nat {
        8
    }

    open spec fn decoded(bytes: Seq<u8>) -> Result<Self, DecodeFailure> {
        if bytes.len() < 8 {
            Err(short_input(bytes.len()))
        } else {
            Ok(
                FDBHeader {
                    table_count: le_u32(bytes, 0),
                    table_header_list_addr: le_u32(bytes, 4),
                },
            )
        }
    }

    open spec fn encoded(&self) -> Seq<u8> {
        u32_le_bytes(self.table_count) + u32_le_bytes(self.table_header_list_addr)
    }

    fn width() -> (n: usize) {
        8
    }

    fn parse(input: &[u8]) -> (r: Result<Self, DecodeFailure>) {
        if input.len() < 8 {
            Err(stop_short(input.len()))
        } else {
            Ok(
                FDBHeader {
                    table_count: read_le_u32(input, 0),
                    table_header_list_addr: read_le_u32(input, 4),
                },
            )
        }
    }

    fn to_bytes(&self) -> (bytes: Vec<u8>) {
        let mut bytes: Vec<u8> = Vec::new();
        write_le_u32(&mut bytes, self.table_count);
        write_le_u32(&mut bytes, self.table_header_list_addr);
        bytes
    }

    proof fn lemma_round_trip(&self) {
        lemma_two_fields(self.table_count, self.table_header_list_addr);
    }
}

impl ParseFDB for FDBTableHeader {
    open spec fn byte_count() -> nat {
        12
    }

    open spec fn decoded(bytes: Seq<u8>) -> Result<Self, DecodeFailure> {
        if bytes.len() < 12 {
            Err(short_input(bytes.len()))
        } else {
            Ok(
                FDBTableHeader {
                    name_addr: le_u32(bytes, 0),
                    table_def_header_addr: le_u32(bytes, 4),
                    table_data_header_addr: le_u32(bytes, 8),
                },
            )
        }
    }

    open spec fn encoded(&self) -> Seq<u8> {
        u32_le_bytes(self.name_addr) + u32_le_bytes(self.table_def_header_addr) + u32_le_bytes(self.table_data_header_addr)
    }

    fn width() -> (n: usize) {
        12
    }

    fn parse(input: &[u8]) -> (r: Result<Self, DecodeFailure>) {
        if input.len() < 12 {
            Err(stop_short(input.len()))
        } else {
            Ok(
                FDBTableHeader {
                    name_addr: read_le_u32(input, 0),
                    table_def_header_addr: read_le_u32(input, 4),
                    table_data_header_addr: read_le_u32(input, 8),
                },
            )
        }
    }

    fn to_bytes(&self) -> (bytes: Vec<u8>) {
        let mut bytes: Vec<u8> = Vec::new();
        write_le_u32(&mut bytes, self.name_addr);
        write_le_u32(&mut bytes, self.table_def_header_addr);
        write_le_u32(&mut bytes, self.table_data_header_addr);
        bytes
    }

    proof fn lemma_round_trip(&self) {
        lemma_three_fields(self.name_addr, self.table_def_header_addr, self.table_data_header_addr);
    }
}

impl ParseFDB for FDBTableDefHeader {
    open spec fn byte_count() -> nat {
        8
    }

    open spec fn decoded(bytes: Seq<u8>) -> Result<Self, DecodeFailure> {
        if bytes.len() < 8 {
            Err(short_input(bytes.len()))
        } else {
            Ok(
                FDBTableDefHeader {
                    column_count: le_u32(bytes, 0),
                    column_header_list_addr: le_u32(bytes, 4),
                },
            )
        }
    }

    open spec fn encoded(&self) -> Seq<u8> {
        u32_le_bytes(self.column_count) + u32_le_bytes(self.column_header_list_addr)
    }

    fn width() -> (n: usize) {
        8
    }

    fn parse(input: &[u8]) -> (r: Result<Self, DecodeFailure>) {
        if input.len() < 8 {
            Err(stop_short(input.len()))
        } else {
            Ok(
                FDBTableDefHeader {
                    column_count: read_le_u32(input, 0),
                    column_header_list_addr: read_le_u32(input, 4),
                },
            )
        }
    }

    fn to_bytes(&self) -> (bytes: Vec<u8>) {
        let mut bytes: Vec<u8> = Vec::new();
        write_le_u32(&mut bytes, self.column_count);
        write_le_u32(&mut bytes, self.column_header_list_addr);
        bytes
    }

    proof fn lemma_round_trip(&self) {
        lemma_two_fields(self.column_count, self.column_header_list_addr);
    }
}

impl ParseFDB for FDBColumnHeader {
    open spec fn byte_count() -> nat {
        8
    }

    open spec fn decoded(bytes: Seq<u8>) -> Result<Self, DecodeFailure> {
        if bytes.len() < 8 {
            Err(short_input(bytes.len()))
        } else {
            Ok(
                FDBColumnHeader {
                    type_tag: le_u32(bytes, 0),
                    name_addr: le_u32(bytes, 4),
                },
            )
        }
    }

    open spec fn encoded(&self) -> Seq<u8> {
        u32_le_bytes(self.type_tag) + u32_le_bytes(self.name_addr)
    }

    fn width() -> (n: usize) {
        8
    }

    fn parse(input: &[u8]) -> (r: Result<Self, DecodeFailure>) {
        if input.len() < 8 {
            Err(stop_short(input.len()))
        } else {
            Ok(
                FDBColumnHeader {
                    type_tag: read_le_u32(input, 0),
                    name_addr: read_le_u32(input, 4),
                },
            )
        }
    }

    fn to_bytes(&self) -> (bytes: Vec<u8>) {
        let mut bytes: Vec<u8> = Vec::new();
        write_le_u32(&mut bytes, self.type_tag);
        write_le_u32(&mut bytes, self.name_addr);
        bytes
    }

    proof fn lemma_round_trip(&self) {
        lemma_two_fields(self.type_tag, self.name_addr);
    }
}

impl ParseFDB for FDBTableDataHeader {
    open spec fn byte_count() -> nat {
        8
    }

    open spec fn decoded(bytes: Seq<u8>) -> Result<Self, DecodeFailure> {
        if bytes.len() < 8 {
            Err(short_input(bytes.len()))
        } else {
            Ok(
                FDBTableDataHeader {
                    bucket_count: le_u32(bytes, 0),
                    bucket_header_list_addr: le_u32(bytes, 4),
                },
            )
        }
    }

    open spec fn encoded(&self) -> Seq<u8> {
        u32_le_bytes(self.bucket_count) + u32_le_bytes(self.bucket_header_list_addr)
    }

    fn width() -> (n: usize) {
        8
    }

    fn parse(input: &[u8]) -> (r: Result<Self, DecodeFailure>) {
        if input.len() < 8 {
            Err(stop_short(input.len()))
        } else {
            Ok(
                FDBTableDataHeader {
                    bucket_count: read_le_u32(input, 0),
                    bucket_header_list_addr: read_le_u32(input, 4),
                },
            )
        }
    }

    fn to_bytes(&self) -> (bytes: Vec<u8>) {
        let mut bytes: Vec<u8> = Vec::new();
        write_le_u32(&mut bytes, self.bucket_count);
        write_le_u32(&mut bytes, self.bucket_header_list_addr);
        bytes
    }

    proof fn lemma_round_trip(&self) {
        lemma_two_fields(self.bucket_count, self.bucket_header_list_addr);
    }
}

impl ParseFDB for FDBBucketHeader {
    open spec fn byte_count() -> nat {
        4
    }

    open spec fn decoded(bytes: Seq<u8>) -> Result<Self, DecodeFailure> {
        if bytes.len() < 4 {
            Err(short_input(bytes.len()))
        } else {
            Ok(
                FDBBucketHeader {
                    row_header_list_head_addr: le_u32(bytes, 0),
                },
            )
        }
    }

    open spec fn encoded(&self) -> Seq<u8> {
        u32_le_bytes(self.row_header_list_head_addr)
    }

    fn width() -> (n: usize) {
        4
    }

    fn parse(input: &[u8]) -> (r: Result<Self, DecodeFailure>) {
        if input.len() < 4 {
            Err(stop_short(input.len()))
        } else {
            Ok(
                FDBBucketHeader {
                    row_header_list_head_addr: read_le_u32(input, 0),
                },
            )
        }
    }

    fn to_bytes(&self) -> (bytes: Vec<u8>) {
        let mut bytes: Vec<u8> = Vec::new();
        write_le_u32(&mut bytes, self.row_header_list_head_addr);
        bytes
    }

    proof fn lemma_round_trip(&self) {
        lemma_one_field(self.row_header_list_head_addr);
    }
}

impl ParseFDB for FDBRowHeaderListEntry {
    open spec fn byte_count() -> nat {
        8
    }

    open spec fn decoded(bytes: Seq<u8>) -> Result<Self, DecodeFailure> {
        if bytes.len() < 8 {
            Err(short_input(bytes.len()))
        } else {
            Ok(
                FDBRowHeaderListEntry {
                    row_header_addr: le_u32(bytes, 0),
                    row_header_list_next_addr: le_u32(bytes, 4),
                },
            )
        }
    }

    open spec fn encoded(&self) -> Seq<u8> {
        u32_le_bytes(self.row_header_addr) + u32_le_bytes(self.row_header_list_next_addr)
    }

    fn width() -> (n: usize) {
        8
    }

    fn parse(input: &[u8]) -> (r: Result<Self, DecodeFailure>) {
        if input.len() < 8 {
            Err(stop_short(input.len()))
        } else {
            Ok(
                FDBRowHeaderListEntry {
                    row_header_addr: read_le_u32(input, 0),
                    row_header_list_next_addr: read_le_u32(input, 4),
                },
            )
        }
    }

    fn to_bytes(&self) -> (bytes: Vec<u8>) {
        let mut bytes: Vec<u8> = Vec::new();
        write_le_u32(&mut bytes, self.row_header_addr);
        write_le_u32(&mut bytes, self.row_header_list_next_addr);
        bytes
    }

    proof fn lemma_round_trip(&self) {
        lemma_two_fields(self.row_header_addr, self.row_header_list_next_addr);
    }
}

impl ParseFDB for FDBRowHeader {
    open spec fn byte_count() -> nat {
        8
    }

    open spec fn decoded(bytes: Seq<u8>) -> Result<Self, DecodeFailure> {
        if bytes.len() < 8 {
            Err(short_input(bytes.len()))
        } else {
            Ok(
                FDBRowHeader {
                    field_count: le_u32(bytes, 0),
                    field_data_list_addr: le_u32(bytes, 4),
                },
            )
        }
    }

    open spec fn encoded(&self) -> Seq<u8> {
        u32_le_bytes(self.field_count) + u32_le_bytes(self.field_data_list_addr)
    }

    fn width() -> (n: usize) {
        8
    }

    fn parse(input: &[u8]) -> (r: Result<Self, DecodeFailure>) {
        if input.len() < 8 {
            Err(stop_short(input.len()))
        } else {
            Ok(
                FDBRowHeader {
                    field_count: read_le_u32(input, 0),
                    field_data_list_addr: read_le_u32(input, 4),
                },
            )
        }
    }

    fn to_bytes(&self) -> (bytes: Vec<u8>) {
        let mut bytes: Vec<u8> = Vec::new();
        write_le_u32(&mut bytes, self.field_count);
        write_le_u32(&mut bytes, self.field_data_list_addr);
        bytes
    }

    proof fn lemma_round_trip(&self) {
        lemma_two_fields(self.field_count, self.field_data_list_addr);
    }
}

impl ParseFDB for FDBFieldData {
    open spec fn byte_count() -> nat {
        8
    }

    open spec fn decoded(bytes: Seq<u8>) -> Result<Self, DecodeFailure> {
        if bytes.len() < 8 {
            Err(short_input(bytes.len()))
        } else {
            Ok(
                FDBFieldData {
                    type_tag: le_u32(bytes, 0),
                    value: le_u32(bytes, 4),
                },
            )
        }
    }

    open spec fn encoded(&self) -> Seq<u8> {
        u32_le_bytes(self.type_tag) + u32_le_bytes(self.value)
    }

    fn width() -> (n: usize) {
        8
    }

    fn parse(input: &[u8]) -> (r: Result<Self, DecodeFailure>) {
        if input.len() < 8 {
            Err(stop_short(input.len()))
        } else {
            Ok(
                FDBFieldData {
                    type_tag: read_le_u32(input, 0),
                    value: read_le_u32(input, 4),
                },
            )
        }
    }

    fn to_bytes(&self) -> (bytes: Vec<u8>) {
        let mut bytes: Vec<u8> = Vec::new();
        write_le_u32(&mut bytes, self.type_tag);
        write_le_u32(&mut bytes, self.value);
        bytes
    }

    proof fn lemma_round_trip(&self) {
        lemma_two_fields(self.type_tag, self.value);
    }
}

} // verus!
