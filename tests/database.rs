use sqlite_starter_rust::btree_page::PageType;
use sqlite_starter_rust::error::DbError;
use sqlite_starter_rust::schema_table::ObjectType;
use sqlite_starter_rust::serial_value::SerialValue;
use sqlite_starter_rust::{SQLiteDB, WhereClause};

fn varint(v: u64) -> Vec<u8> {
    let mut groups = vec![(v & 0x7f) as u8];
    let mut x = v >> 7;
    while x > 0 {
        groups.push(((x & 0x7f) as u8) | 0x80);
        x >>= 7;
    }
    groups.reverse();
    groups
}

enum Col {
    Null,
    Int(i64),
    Text(&'static str),
}

fn record(cols: &[Col]) -> Vec<u8> {
    let mut header = Vec::new();
    let mut body = Vec::new();
    for c in cols {
        match c {
            Col::Null => header.push(0),
            Col::Int(i) => {
                header.push(6);
                body.extend(i.to_be_bytes());
            }
            Col::Text(s) => {
                header.extend(varint(13 + 2 * s.len() as u64));
                body.extend(s.as_bytes());
            }
        }
    }
    let mut out = varint(header.len() as u64 + 1);
    out.extend(header);
    out.extend(body);
    out
}

fn leaf_cell(row_id: u64, cols: &[Col]) -> Vec<u8> {
    let rec = record(cols);
    let mut c = varint(rec.len() as u64);
    c.extend(varint(row_id));
    c.extend(rec);
    c
}

fn interior_cell(child: u32, row_id: u64) -> Vec<u8> {
    let mut c = child.to_be_bytes().to_vec();
    c.extend(varint(row_id));
    c
}

/// A page of `size` bytes whose B-tree header starts at `start`.
fn page(size: usize, start: usize, kind: u8, right: Option<u32>, cells: &[Vec<u8>]) -> Vec<u8> {
    let mut p = vec![0u8; size];
    p[start] = kind;
    p[start + 3..start + 5].copy_from_slice(&(cells.len() as u16).to_be_bytes());
    let mut ptr_at = start + 8;
    if let Some(r) = right {
        p[start + 8..start + 12].copy_from_slice(&r.to_be_bytes());
        ptr_at = start + 12;
    }
    let mut end = size;
    for c in cells {
        end -= c.len();
        p[end..end + c.len()].copy_from_slice(c);
        p[ptr_at..ptr_at + 2].copy_from_slice(&(end as u16).to_be_bytes());
        ptr_at += 2;
    }
    p[start + 5..start + 7].copy_from_slice(&(end as u16).to_be_bytes());
    p
}

fn schema_row(kind: &'static str, name: &'static str, tbl: &'static str, root: i64) -> Vec<Col> {
    vec![Col::Text(kind), Col::Text(name), Col::Text(tbl), Col::Int(root), Col::Text("CREATE")]
}

/// A file whose page 1 holds `schema` and whose later pages are `pages`.
fn image(size: usize, schema: &[Vec<Col>], pages: Vec<Vec<u8>>) -> Vec<u8> {
    let cells: Vec<Vec<u8>> = schema.iter().enumerate().map(|(i, r)| leaf_cell(i as u64 + 1, r)).collect();
    let mut first = page(size, 100, 13, None, &cells);
    first[..16].copy_from_slice(b"SQLite format 3\0");
    first[16..18].copy_from_slice(&(size as u16).to_be_bytes());
    let mut out = first;
    for p in pages {
        out.extend(p);
    }
    out
}

fn columns(names: &[&str]) -> Vec<String> {
    names.iter().map(|s| s.to_string()).collect()
}

#[test]
fn end_to_end_single_leaf() {
    let leaf = page(4096, 0, 13, None, &[leaf_cell(1, &[Col::Text("hello"), Col::Int(42)])]);
    let data = image(4096, &[schema_row("table", "t", "t", 2)], vec![leaf]);
    let db = SQLiteDB::new(data).unwrap();
    assert_eq!(db.get_page_size(), 4096);
    assert_eq!(db.get_tables().len(), 1);
    let t = db.get_table("t").unwrap();
    assert_eq!(t.rootpage, Some(2));
    assert_eq!(t.object_type, ObjectType::Table);
    let rows = db.get_table_rows(t, &columns(&["a", "b"]), None).unwrap();
    assert_eq!(rows.len(), 1);
    assert_eq!(rows[0].row_id, 1);
    assert_eq!(rows[0].columns, vec![SerialValue::Text("hello".to_string()), SerialValue::Integer(42)]);
}

#[test]
fn traversal_through_interior_levels() {
    // page 2: interior, children 3 and right-most 4
    // page 3: interior, children 5 and right-most 6
    // pages 4, 5, 6: leaves
    let p2 = page(512, 0, 5, Some(4), &[interior_cell(3, 20)]);
    let p3 = page(512, 0, 5, Some(6), &[interior_cell(5, 10)]);
    let p4 = page(512, 0, 13, None, &[leaf_cell(21, &[Col::Int(1)]), leaf_cell(22, &[Col::Int(2)])]);
    let p5 = page(512, 0, 13, None, &[leaf_cell(1, &[Col::Int(3)]), leaf_cell(2, &[Col::Int(4)])]);
    let p6 = page(512, 0, 13, None, &[leaf_cell(11, &[Col::Int(5)])]);
    let data = image(512, &[schema_row("table", "t", "t", 2)], vec![p2, p3, p4, p5, p6]);
    let db = SQLiteDB::new(data).unwrap();
    let t = db.get_table("t").unwrap();
    let rows = db.get_table_rows(t, &columns(&["x"]), None).unwrap();
    let mut ids: Vec<u64> = rows.iter().map(|r| r.row_id).collect();
    // breadth first: the leaf at depth 1 comes before those at depth 2
    assert_eq!(ids, vec![21, 22, 1, 2, 11]);
    ids.sort();
    assert_eq!(ids, vec![1, 2, 11, 21, 22]);
    let child = db.get_page(3).unwrap();
    assert_eq!(child.page_type, PageType::InteriorTableBTreePage);
    assert_eq!(child.get_child_pages().unwrap(), vec![5, 6]);
}

#[test]
fn predicate_filtering() {
    let leaf = page(
        512,
        0,
        13,
        None,
        &[
            leaf_cell(1, &[Col::Null, Col::Text("a")]),
            leaf_cell(2, &[Col::Null, Col::Text("b")]),
            leaf_cell(3, &[Col::Null, Col::Text("a")]),
        ],
    );
    let data = image(512, &[schema_row("table", "t", "t", 2)], vec![leaf]);
    let db = SQLiteDB::new(data).unwrap();
    let t = db.get_table("t").unwrap();
    let cols = columns(&["id", "name"]);
    let w = WhereClause { column: "name".to_string(), value: "a".to_string() };
    let rows = db.get_table_rows(t, &cols, Some(&w)).unwrap();
    let ids: Vec<u64> = rows.iter().map(|r| r.row_id).collect();
    assert_eq!(ids, vec![1, 3]);
    let w = WhereClause { column: "missing".to_string(), value: "a".to_string() };
    assert_eq!(db.get_table_rows(t, &cols, Some(&w)).unwrap_err(), DbError::UnresolvedColumn);
}

#[test]
fn predicate_on_integer_column() {
    let leaf = page(
        512,
        0,
        13,
        None,
        &[leaf_cell(1, &[Col::Int(10)]), leaf_cell(2, &[Col::Int(-3)]), leaf_cell(3, &[])],
    );
    let data = image(512, &[schema_row("table", "t", "t", 2)], vec![leaf]);
    let db = SQLiteDB::new(data).unwrap();
    let t = db.get_table("t").unwrap();
    let w = WhereClause { column: "n".to_string(), value: "-3".to_string() };
    let rows = db.get_table_rows(t, &columns(&["n"]), Some(&w)).unwrap();
    assert_eq!(rows.len(), 1);
    assert_eq!(rows[0].row_id, 2);
}

#[test]
fn catalog_lookups() {
    let leaf = page(512, 0, 13, None, &[]);
    let schema = [
        schema_row("table", "t", "t", 2),
        schema_row("index", "t_idx", "t", 3),
        vec![Col::Text("view"), Col::Text("v"), Col::Text("v"), Col::Int(0), Col::Null],
    ];
    let idx = page(512, 0, 10, None, &[]);
    let data = image(512, &schema, vec![leaf, idx]);
    let mut db = SQLiteDB::new(data).unwrap();
    assert_eq!(db.get_tables().len(), 3);
    assert!(db.get_table("t_idx").is_none());
    assert!(db.get_table("missing").is_none());
    let v = &db.get_tables()[2];
    assert_eq!(v.object_type, ObjectType::View);
    assert_eq!(v.rootpage, None);
    assert_eq!(v.sql, None);
    assert!(db.get_index("t", "name").is_none());
    db.set_indexed_columns(1, columns(&["name"]));
    let i = db.get_index("t", "name").unwrap();
    assert_eq!(i.name, "t_idx");
    assert!(db.get_index("t", "other").is_none());
    assert!(db.get_index("u", "name").is_none());
    let rows = db.get_table_rows(db.get_table("t").unwrap(), &columns(&["a"]), None).unwrap();
    assert!(rows.is_empty());
    let idx_entry = db.get_index("t", "name").unwrap();
    assert_eq!(
        db.get_table_rows(idx_entry, &columns(&["a"]), None).unwrap_err(),
        DbError::UnexpectedIndexPage
    );
    let view = &db.get_tables()[2];
    assert_eq!(db.get_table_rows(view, &columns(&["a"]), None).unwrap_err(), DbError::MissingRootPage);
}

#[test]
fn walk_errors() {
    // page 2 names itself as its right-most child
    let looped = page(512, 0, 5, Some(2), &[]);
    let data = image(512, &[schema_row("table", "t", "t", 2), schema_row("table", "u", "u", 9)], vec![looped]);
    let db = SQLiteDB::new(data).unwrap();
    let t = db.get_table("t").unwrap();
    assert_eq!(db.get_table_rows(t, &columns(&["a"]), None).unwrap_err(), DbError::CyclicTree);
    let u = db.get_table("u").unwrap();
    assert_eq!(db.get_table_rows(u, &columns(&["a"]), None).unwrap_err(), DbError::PageOutOfRange);
    assert_eq!(db.get_page(0).unwrap_err(), DbError::PageOutOfRange);
    assert_eq!(db.get_page(3).unwrap_err(), DbError::PageOutOfRange);
}

#[test]
fn open_errors() {
    assert_eq!(SQLiteDB::new(vec![0u8; 50]).err(), Some(DbError::InvalidHeader));
    let bad_schema = vec![vec![Col::Text("table"), Col::Text("t")]];
    let data = image(512, &bad_schema, vec![]);
    assert_eq!(SQLiteDB::new(data).err(), Some(DbError::MalformedRecord));
    let unknown = vec![vec![Col::Text("thing"), Col::Text("t"), Col::Text("t"), Col::Int(2), Col::Null]];
    let data = image(512, &unknown, vec![]);
    assert_eq!(SQLiteDB::new(data).err(), Some(DbError::MalformedRecord));
}
