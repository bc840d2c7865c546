use sqlite_starter_rust::btree_page::{BTreePage, PageType};
use sqlite_starter_rust::cell::{
    read_payload, IndexInteriorCell, IndexLeafCell, TableInteriorCell, TableLeafCell,
};
use sqlite_starter_rust::database_file_header::DatabaseFileHeader;
use sqlite_starter_rust::error::DbError;
use sqlite_starter_rust::reader::{read_be, read_byte, read_varint};
use sqlite_starter_rust::serial_value::{read_serial_value, render_integer, serial_size_of, SerialValue};

fn varint(v: u64) -> Vec<u8> {
    if v >= 1u64 << 56 {
        let mut out = Vec::new();
        let hi = v >> 8;
        for k in (0..8).rev() {
            out.push((((hi >> (7 * k)) & 0x7f) as u8) | 0x80);
        }
        out.push((v & 0xff) as u8);
        return out;
    }
    let mut groups = vec![(v & 0x7f) as u8];
    let mut x = v >> 7;
    while x > 0 {
        groups.push(((x & 0x7f) as u8) | 0x80);
        x >>= 7;
    }
    groups.reverse();
    groups
}

fn record(values: &[(u64, Vec<u8>)]) -> Vec<u8> {
    let mut header = Vec::new();
    for (code, _) in values {
        header.extend(varint(*code));
    }
    let mut size = header.len() + 1;
    if varint(size as u64).len() > 1 {
        size += 1;
    }
    let mut out = varint(size as u64);
    out.extend(header);
    for (_, body) in values {
        out.extend(body.clone());
    }
    out
}

#[test]
fn varint_single_and_multi_byte() {
    assert_eq!(read_varint(&[0x7f], 0), Ok((127, 1)));
    assert_eq!(read_varint(&[0x81, 0x00], 0), Ok((128, 2)));
    assert_eq!(read_varint(&[0x00, 0x82, 0x2c], 1), Ok((300, 3)));
    assert_eq!(read_varint(&[0xff; 9], 0), Ok((u64::MAX, 9)));
    assert_eq!(read_varint(&[0x81, 0x80], 0), Err(DbError::Truncated));
    assert_eq!(read_varint(&[], 0), Err(DbError::Truncated));
}

#[test]
fn varint_round_trip_values() {
    let values = [0u64, 1, 127, 128, 16383, 16384, 1 << 35, (1 << 56) - 1, 1 << 56, u64::MAX - 5, u64::MAX];
    for v in values {
        let bytes = varint(v);
        assert_eq!(read_varint(&bytes, 0), Ok((v, bytes.len())));
    }
}

#[test]
fn fixed_width_reads() {
    let data = [0x12, 0x34, 0x56, 0x78, 0x9a];
    assert_eq!(read_be(&data, 0, 2), Ok((0x1234, 2)));
    assert_eq!(read_be(&data, 1, 4), Ok((0x3456789a, 5)));
    assert_eq!(read_be(&data, 2, 4), Err(DbError::Truncated));
    assert_eq!(read_byte(&data, 4), Ok((0x9a, 5)));
    assert_eq!(read_byte(&data, 5), Err(DbError::Truncated));
}

#[test]
fn serial_value_sizes() {
    let data = [0u8; 16];
    let expected = [0usize, 1, 2, 3, 4, 6, 8, 8, 0, 0];
    for (code, size) in expected.iter().enumerate() {
        let (_, end) = read_serial_value(&data, 3, code as u64).unwrap();
        assert_eq!(end, 3 + size);
        assert_eq!(serial_size_of(code as u64), *size as u64);
    }
    assert_eq!(serial_size_of(12 + 2 * 5), 5);
    assert_eq!(serial_size_of(13 + 2 * 7), 7);
    let (v, end) = read_serial_value(b"xabcdef", 1, 13 + 2 * 3).unwrap();
    assert_eq!(v, SerialValue::Text("abc".to_string()));
    assert_eq!(end, 4);
    let (v, end) = read_serial_value(&[9, 1, 2, 3, 4], 1, 12 + 2 * 4).unwrap();
    assert_eq!(v, SerialValue::Blob(vec![1, 2, 3, 4]));
    assert_eq!(end, 5);
}

#[test]
fn signed_widths() {
    assert_eq!(read_serial_value(&[0xff], 0, 1), Ok((SerialValue::Integer(-1), 1)));
    assert_eq!(read_serial_value(&[0x7f], 0, 1), Ok((SerialValue::Integer(127), 1)));
    assert_eq!(read_serial_value(&[0xff, 0xfe], 0, 2), Ok((SerialValue::Integer(-2), 2)));
    assert_eq!(read_serial_value(&[0x80, 0, 0], 0, 3), Ok((SerialValue::Integer(-8388608), 3)));
    assert_eq!(read_serial_value(&[0, 0, 1, 0], 0, 4), Ok((SerialValue::Integer(256), 4)));
    assert_eq!(read_serial_value(&[0xff; 6], 0, 5), Ok((SerialValue::Integer(-1), 6)));
    assert_eq!(
        read_serial_value(&[0x80, 0, 0, 0, 0, 0, 0, 0], 0, 6),
        Ok((SerialValue::Integer(i64::MIN), 8))
    );
    assert_eq!(read_serial_value(&[], 0, 8), Ok((SerialValue::Integer(0), 0)));
    assert_eq!(read_serial_value(&[], 0, 9), Ok((SerialValue::Integer(1), 0)));
    assert_eq!(read_serial_value(&[], 0, 0), Ok((SerialValue::Null, 0)));
    let bits = 1.5f64.to_bits().to_be_bytes();
    assert_eq!(read_serial_value(&bits, 0, 7), Ok((SerialValue::Float(1.5f64.to_bits()), 8)));
}

#[test]
fn serial_value_errors() {
    assert_eq!(read_serial_value(&[0; 8], 0, 10), Err(DbError::UnsupportedSerialType));
    assert_eq!(read_serial_value(&[0; 8], 0, 11), Err(DbError::UnsupportedSerialType));
    assert_eq!(read_serial_value(&[0xff, 0xfe], 0, 13 + 2 * 2), Err(DbError::InvalidUtf8));
    assert_eq!(read_serial_value(&[1, 2], 0, 4), Err(DbError::Truncated));
    assert_eq!(read_serial_value(b"ab", 0, 13 + 2 * 3), Err(DbError::Truncated));
}

#[test]
fn rendering() {
    assert_eq!(render_integer(0), b"0".to_vec());
    assert_eq!(render_integer(-42), b"-42".to_vec());
    assert_eq!(render_integer(i64::MIN), b"-9223372036854775808".to_vec());
    assert!(SerialValue::Integer(10).renders_as_literal("10"));
    assert!(!SerialValue::Integer(10).renders_as_literal("10.0"));
    assert!(SerialValue::Null.renders_as_literal("NULL"));
    assert!(SerialValue::Text("a b".to_string()).renders_as_literal("a b"));
    assert!(!SerialValue::Text("a".to_string()).renders_as_literal("A"));
    assert!(SerialValue::Blob(b"xy".to_vec()).renders_as_literal("xy"));
    assert!(!SerialValue::Float(1.0f64.to_bits()).renders_as_literal("1"));
    assert_eq!(SerialValue::Integer(-7).rendered_string(), Some("-7".to_string()));
    assert_eq!(SerialValue::Blob(vec![0xff]).rendered_string(), None);
    assert_eq!(SerialValue::Integer(5).into_u64(), Some(5));
    assert_eq!(SerialValue::Integer(-5).into_u64(), None);
    assert_eq!(SerialValue::Text("5".to_string()).into_u64(), None);
}

#[test]
fn record_order() {
    let rec = record(&[
        (0, vec![]),
        (1, vec![0xfe]),
        (13 + 2 * 2, b"hi".to_vec()),
        (9, vec![]),
        (12 + 2, vec![7]),
        (2, vec![1, 0]),
    ]);
    let cols = read_payload(&rec, 0).unwrap();
    assert_eq!(
        cols,
        vec![
            SerialValue::Null,
            SerialValue::Integer(-2),
            SerialValue::Text("hi".to_string()),
            SerialValue::Integer(1),
            SerialValue::Blob(vec![7]),
            SerialValue::Integer(256),
        ]
    );
}

#[test]
fn record_header_misaligned() {
    // header size 3 but the second code is a two-byte varint ending at 4
    let rec = vec![3, 1, 0x81, 0x00, 5];
    assert_eq!(read_payload(&rec, 0), Err(DbError::MalformedRecord));
    let rec = vec![5, 1];
    assert_eq!(read_payload(&rec, 0), Err(DbError::Truncated));
}

#[test]
fn table_cells() {
    let rec = record(&[(13 + 2 * 5, b"hello".to_vec()), (1, vec![42])]);
    let mut cell = varint(rec.len() as u64);
    cell.extend(varint(1));
    cell.extend(rec);
    let c = TableLeafCell::parse(&cell).unwrap();
    assert_eq!(c.row_id, 1);
    assert_eq!(c.columns, vec![SerialValue::Text("hello".to_string()), SerialValue::Integer(42)]);

    let mut cell = vec![0, 0, 1, 2];
    cell.extend(varint(300));
    let c = TableInteriorCell::parse(&cell).unwrap();
    assert_eq!(c.page_number_of_left_child, 258);
    assert_eq!(c.row_id, 300);
    assert_eq!(TableInteriorCell::parse(&[0, 0, 1]).unwrap_err(), DbError::Truncated);
}

#[test]
fn index_cells_row_id() {
    let rec = record(&[(13 + 2 * 3, b"abc".to_vec()), (2, vec![0x01, 0x00])]);
    let mut cell = varint(rec.len() as u64);
    cell.extend(rec.clone());
    let c = IndexLeafCell::parse(&cell).unwrap();
    assert_eq!(c.row_id, 256);
    assert_eq!(c.columns, vec![SerialValue::Text("abc".to_string())]);
    assert_eq!(c.get_first_column_value(), Some("abc".to_string()));

    let mut cell = vec![0, 0, 0, 9];
    cell.extend(varint(rec.len() as u64));
    cell.extend(rec);
    let c = IndexInteriorCell::parse(&cell).unwrap();
    assert_eq!(c.page_number_of_left_child, 9);
    assert_eq!(c.row_id, 256);
    assert_eq!(c.get_first_column_value(), Some("abc".to_string()));

    let rec = record(&[(1, vec![3]), (13 + 2, b"x".to_vec())]);
    let mut cell = varint(rec.len() as u64);
    cell.extend(rec);
    assert_eq!(IndexLeafCell::parse(&cell).unwrap_err(), DbError::MalformedRecord);

    let rec = record(&[(1, vec![0xff])]);
    let mut cell = varint(rec.len() as u64);
    cell.extend(rec);
    assert_eq!(IndexLeafCell::parse(&cell).unwrap_err(), DbError::MalformedRecord);

    let rec = record(&[]);
    let mut cell = varint(rec.len() as u64);
    cell.extend(rec);
    assert_eq!(IndexLeafCell::parse(&cell).unwrap_err(), DbError::MalformedRecord);

    let rec = record(&[(9, vec![])]);
    let mut cell = varint(rec.len() as u64);
    cell.extend(rec);
    let c = IndexLeafCell::parse(&cell).unwrap();
    assert_eq!(c.row_id, 1);
    assert_eq!(c.get_first_column_value(), None);
}

#[test]
fn header_page_size() {
    let mut h = vec![0u8; 100];
    h[16] = 0x10;
    h[17] = 0x00;
    assert_eq!(DatabaseFileHeader::from_bytes(&h).unwrap().page_size, 4096);
    h[16] = 0x02;
    assert_eq!(DatabaseFileHeader::from_bytes(&h).unwrap().page_size, 512);
    h[16] = 0x03;
    assert_eq!(DatabaseFileHeader::from_bytes(&h), Err(DbError::InvalidHeader));
    h[16] = 0x01;
    assert_eq!(DatabaseFileHeader::from_bytes(&h), Err(DbError::InvalidHeader));
    assert_eq!(DatabaseFileHeader::from_bytes(&[0u8; 99]), Err(DbError::InvalidHeader));
}

#[test]
fn page_parsing() {
    let mut page = vec![0u8; 512];
    page[0] = 13;
    page[3] = 0;
    page[4] = 2;
    page[5] = 0x01;
    page[6] = 0xf0;
    page[7] = 3;
    page[8] = 0x01;
    page[9] = 0xf0;
    page[10] = 0x01;
    page[11] = 0xf8;
    let p = BTreePage::parse(page.clone(), false).unwrap();
    assert_eq!(p.page_type, PageType::LeafTableBTreePage);
    assert_eq!(p.cell_count, 2);
    assert_eq!(p.content_area_start_at, 0x01f0);
    assert_eq!(p.fragmented_free_bytes_count, 3);
    assert_eq!(p.right_most_pointer, None);
    assert_eq!(p.cell_pointers, vec![0x01f0, 0x01f8]);
    assert!(!p.page_type.is_interior_page());

    let mut interior = vec![0u8; 512];
    interior[0] = 5;
    interior[8..12].copy_from_slice(&[0, 0, 0, 7]);
    let p = BTreePage::parse(interior, false).unwrap();
    assert_eq!(p.page_type, PageType::InteriorTableBTreePage);
    assert_eq!(p.right_most_pointer, Some(7));
    assert_eq!(p.get_child_pages().unwrap(), vec![7]);

    let mut bad = page.clone();
    bad[0] = 3;
    assert_eq!(BTreePage::parse(bad, false).unwrap_err(), DbError::UnsupportedPageType);
    let mut out = page.clone();
    out[10] = 0x02;
    out[11] = 0x00;
    assert_eq!(BTreePage::parse(out, false).unwrap_err(), DbError::CellOutOfPage);
    assert_eq!(BTreePage::parse(vec![13, 0, 0], false).unwrap_err(), DbError::Truncated);
    assert_eq!(BTreePage::parse(page, true).unwrap_err(), DbError::UnsupportedPageType);
    assert_eq!(PageType::from_byte(2), Ok(PageType::InteriorIndexBTreePage));
    assert_eq!(PageType::from_byte(10), Ok(PageType::LeafIndexBTreePage));
    assert_eq!(PageType::from_byte(0), Err(DbError::UnsupportedPageType));
}
