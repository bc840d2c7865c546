pub mod btree_page;
pub mod cell;
pub mod database_file_header;
pub mod error;
pub mod reader;
pub mod schema_table;
pub mod serial_value;
pub mod tree_laws;

use vstd::prelude::*;
use vstd::utf8::encode_utf8;

use btree_page::{
    filter_view, rows_view, spec_child_pages, spec_leaf_rows, spec_page, BTreePage, PageType,
    PageView, RowFilter,
};
use cell::TableLeafCell;
use database_file_header::{spec_header_page_size, valid_page_size, DatabaseFileHeader};
use error::{prepend, DbError};
use schema_table::{spec_schema_entry, strings_view, ObjectType, SchemaTable, SchemaView};
use serial_value::{bytes_equal, copy_range, Value};

verus! {

/// A decoded row: its row id and its column values.
pub type RowView = (u64, Seq<Value>);

/// An equality condition of a query: `column = value`.
#[derive(Debug, Clone)]
pub struct WhereClause {
    pub column: String,
    pub value: String,
}

/// The number of whole pages in the file.
pub open spec fn page_count(data: Seq<u8>, page_size: nat) -> nat {
    if page_size == 0 {
        0
    } else {
        data.len() / page_size
    }
}

/// The page numbered `n` (from 1): the `page_size` bytes at `(n - 1) * page_size`.
pub open spec fn spec_get_page(data: Seq<u8>, page_size: nat, n: int) -> Result<PageView, DbError> {
    if n < 1 || n > page_count(data, page_size) {
        Err(DbError::PageOutOfRange)
    } else {
        spec_page(data.subrange((n - 1) * page_size, n * page_size), n == 1)
    }
}

/// Breadth-first walk of table pages: the pages waiting are `queue`, in
/// order; an interior page puts its children at the back, a leaf page gives
/// its rows that pass the filter. At most `budget` pages are visited.
pub open spec fn spec_walk(
    data: Seq<u8>,
    page_size: nat,
    queue: Seq<usize>,
    budget: nat,
    f: Option<(usize, Seq<u8>)>,
) -> Result<Seq<RowView>, DbError>
    decreases budget,
{
    if queue.len() == 0 {
        Ok(Seq::empty())
    } else if budget == 0 {
        Err(DbError::CyclicTree)
    } else {
        match spec_get_page(data, page_size, queue[0] as int) {
            Err(e) => Err(e),
            Ok(p) => match p.page_type {
                PageType::InteriorTableBTreePage => match spec_child_pages(p) {
                    Err(e) => Err(e),
                    Ok(cs) => spec_walk(data, page_size, queue.drop_first() + cs, (budget - 1) as nat, f),
                },
                PageType::LeafTableBTreePage => match spec_leaf_rows(p.data, p.cell_pointers, f) {
                    Err(e) => Err(e),
                    Ok(rs) => prepend(
                        rs,
                        spec_walk(data, page_size, queue.drop_first(), (budget - 1) as nat, f),
                    ),
                },
                _ => Err(DbError::UnexpectedIndexPage),
            },
        }
    }
}

/// All rows of the table tree rooted at `root` that pass the filter, in
/// breadth-first leaf order; no walk visits more pages than the file holds.
pub open spec fn spec_scan(data: Seq<u8>, page_size: nat, root: usize, f: Option<(usize, Seq<u8>)>) -> Result<
    Seq<RowView>,
    DbError,
> {
    spec_walk(data, page_size, seq![root], page_count(data, page_size), f)
}

/// The catalog entries of the schema rows, in order.
pub open spec fn spec_schema_entries(rows: Seq<RowView>) -> Result<Seq<SchemaView>, DbError>
    decreases rows.len(),
{
    if rows.len() == 0 {
        Ok(Seq::empty())
    } else {
        match spec_schema_entry(rows[0].1) {
            Err(e) => Err(e),
            Ok(t) => prepend(seq![t], spec_schema_entries(rows.drop_first())),
        }
    }
}

/// Opening a database image: its page size, then the catalog read from the
/// table tree rooted at page 1.
pub open spec fn spec_open(data: Seq<u8>) -> Result<(u16, Seq<SchemaView>), DbError> {
    match spec_header_page_size(data) {
        Err(e) => Err(e),
        Ok(ps) => match spec_scan(data, ps as nat, 1, None) {
            Err(e) => Err(e),
            Ok(rows) => match spec_schema_entries(rows) {
                Err(e) => Err(e),
                Ok(ts) => Ok((ps, ts)),
            },
        },
    }
}

/// The first position of `x` in `s`.
pub open spec fn position_of(s: Seq<Seq<u8>>, x: Seq<u8>) -> Option<int> {
    if exists|i: int| 0 <= i < s.len() && s[i] == x {
        Some(choose|i: int| 0 <= i < s.len() && s[i] == x && forall|j: int| 0 <= j < i ==> s[j] != x)
    } else {
        None
    }
}

/// The model of a database handle.
pub struct DbView {
    /// The whole file.
    pub data: Seq<u8>,
    pub page_size: nat,
    pub tables: Seq<SchemaView>,
}

/// The model of a sequence of catalog entries.
pub open spec fn tables_view(s: Seq<SchemaTable>) -> Seq<SchemaView> {
    s.map_values(|t: SchemaTable| t@)
}

pub open spec fn is_table_named(t: SchemaView, name: Seq<u8>) -> bool {
    t.object_type is Table && t.tbl_name == name
}

pub open spec fn is_index_on(t: SchemaView, table_name: Seq<u8>, column: Seq<u8>) -> bool {
    t.object_type is Index && t.tbl_name == table_name && t.indexed_columns.len() > 0
        && t.indexed_columns[0] == column
}

/// The rows that a scan of `table` returns, filtered by `w` (column name and
/// literal) resolved against the column list `columns`.
pub open spec fn spec_table_rows(
    db: DbView,
    table: SchemaView,
    columns: Seq<Seq<u8>>,
    w: Option<(Seq<u8>, Seq<u8>)>,
) -> Result<Seq<RowView>, DbError> {
    match table.rootpage {
        None => Err(DbError::MissingRootPage),
        Some(root) => match w {
            None => spec_scan(db.data, db.page_size, root, None),
            Some((c, v)) => match position_of(columns, c) {
                None => Err(DbError::UnresolvedColumn),
                Some(i) => spec_scan(db.data, db.page_size, root, Some((i as usize, v))),
            },
        },
    }
}

pub struct SQLiteDB {
    header: DatabaseFileHeader,
    data: Vec<u8>,
    page_size: u16,
    tables: Vec<SchemaTable>,
}

impl View for SQLiteDB {
    type V = DbView;

    closed spec fn view(&self) -> DbView {
        DbView { data: self.data@, page_size: self.page_size as nat, tables: tables_view(self.tables@) }
    }
}

impl SQLiteDB {
    /// The page size is one that the format allows, as the header says.
    pub closed spec fn wf(&self) -> bool {
        valid_page_size(self.page_size as nat) && self.header.page_size == self.page_size
    }

    /// Reads the page numbered `page` (from 1) and parses its header and cell pointers.
    pub fn get_page(&self, page: usize) -> (r: Result<BTreePage, DbError>)
        requires
            self.wf(),
        ensures
            match r {
                Ok(p) => spec_get_page(self@.data, self@.page_size, page as int) == Ok::<PageView, DbError>(p@)
                    && p.wf(),
                Err(e) => spec_get_page(self@.data, self@.page_size, page as int) == Err::<PageView, DbError>(e),
            },
    {
        let ps = self.page_size as usize;
        if page == 0 || page > self.data.len() / ps {
            return Err(DbError::PageOutOfRange);
        }
        proof {
            let n = page as int;
            let len = self.data@.len() as int;
            let q = len / (ps as int);
            assert(n * ps <= len) by (nonlinear_arith)
                requires
                    n <= q,
                    q == len / (ps as int),
                    ps > 0,
                    len >= 0,
            ;
            assert((n - 1) * ps <= n * ps) by (nonlinear_arith)
                requires
                    ps > 0,
                    n >= 1,
            ;
        }
        let start = (page - 1) * ps;
        let end = page * ps;
        let bytes = copy_range(self.data.as_slice(), start, end);
        BTreePage::parse(bytes, page == 1)
    }

    /// Walks the table tree rooted at `root` breadth first and gathers the
    /// rows of its leaf pages that pass the filter.
    fn scan(&self, root: usize, filter: Option<&RowFilter>) -> (r: Result<Vec<TableLeafCell>, DbError>)
        requires
            self.wf(),
        ensures
            match r {
                Ok(v) => spec_scan(self@.data, self@.page_size, root, filter_view(filter))
                    == Ok::<Seq<RowView>, DbError>(rows_view(v@)),
                Err(e) => spec_scan(self@.data, self@.page_size, root, filter_view(filter))
                    == Err::<Seq<RowView>, DbError>(e),
            },
    {
        let ghost data = self@.data;
        let ghost ps = self@.page_size;
        let ghost f = filter_view(filter);
        let mut rows: Vec<TableLeafCell> = Vec::new();
        let mut queue: Vec<usize> = vec![root];
        let mut head: usize = 0;
        let mut budget: usize = self.data.len() / (self.page_size as usize);
        assert(queue@.skip(0) =~= seq![root]);
        assert(rows_view(rows@) =~= Seq::<RowView>::empty());
        while head < queue.len()
            invariant
                self.wf(),
                data == self@.data,
                ps == self@.page_size,
                f == filter_view(filter),
                head <= queue@.len(),
                spec_scan(data, ps, root, f) == prepend(
                    rows_view(rows@),
                    spec_walk(data, ps, queue@.skip(head as int), budget as nat, f),
                ),
            decreases budget,
        {
            let ghost waiting = queue@.skip(head as int);
            assert(waiting[0] == queue@[head as int]);
            assert(waiting.drop_first() =~= queue@.skip(head + 1));
            if budget == 0 {
                return Err(DbError::CyclicTree);
            }
            let page = match self.get_page(queue[head]) {
                Ok(p) => p,
                Err(e) => return Err(e),
            };
            match page.page_type {
                PageType::InteriorTableBTreePage => {
                    let mut children = match page.get_child_pages() {
                        Ok(c) => c,
                        Err(e) => return Err(e),
                    };
                    let ghost cs = children@;
                    queue.append(&mut children);
                    assert(queue@.skip(head + 1) =~= waiting.drop_first() + cs);
                },
                PageType::LeafTableBTreePage => {
                    let mut found = match page.get_rows(filter) {
                        Ok(v) => v,
                        Err(e) => return Err(e),
                    };
                    let ghost before = rows@;
                    let ghost fs = found@;
                    rows.append(&mut found);
                    proof {
                        assert(rows_view(rows@) =~= rows_view(before) + rows_view(fs));
                        match spec_walk(data, ps, queue@.skip(head + 1), (budget - 1) as nat, f) {
                            Ok(s) => assert(rows_view(before) + (rows_view(fs) + s) =~= rows_view(rows@) + s),
                            Err(_) => {},
                        }
                    }
                },
                _ => return Err(DbError::UnexpectedIndexPage),
            }
            head = head + 1;
            budget = budget - 1;
        }
        assert(queue@.skip(head as int) =~= Seq::<usize>::empty());
        assert(rows_view(rows@) + Seq::<RowView>::empty() =~= rows_view(rows@));
        Ok(rows)
    }
}

/// Builds the catalog entries of the schema rows, in order.
fn schema_entries(rows: &Vec<TableLeafCell>) -> (r: Result<Vec<SchemaTable>, DbError>)
    ensures
        match r {
            Ok(v) => spec_schema_entries(rows_view(rows@)) == Ok::<Seq<SchemaView>, DbError>(tables_view(v@)),
            Err(e) => spec_schema_entries(rows_view(rows@)) == Err::<Seq<SchemaView>, DbError>(e),
        },
{
    let ghost all = rows_view(rows@);
    let mut tables: Vec<SchemaTable> = Vec::new();
    let mut i: usize = 0;
    assert(all.skip(0) =~= all);
    assert(tables_view(tables@) =~= Seq::<SchemaView>::empty());
    while i < rows.len()
        invariant
            i <= rows@.len(),
            all == rows_view(rows@),
            spec_schema_entries(all) == prepend(tables_view(tables@), spec_schema_entries(all.skip(i as int))),
        decreases rows.len() - i,
    {
        let ghost rest = all.skip(i as int);
        assert(rest[0] == rows@[i as int]@);
        assert(rest.drop_first() =~= all.skip(i + 1));
        let t = match SchemaTable::from_row(&rows[i].columns) {
            Ok(t) => t,
            Err(e) => return Err(e),
        };
        let ghost before = tables_view(tables@);
        tables.push(t);
        proof {
            assert(tables_view(tables@) =~= before.push(t@));
            match spec_schema_entries(all.skip(i + 1)) {
                Ok(s) => assert(before + (seq![t@] + s) =~= before.push(t@) + s),
                Err(_) => {},
            }
        }
        i = i + 1;
    }
    assert(all.skip(i as int) =~= Seq::<RowView>::empty());
    assert(tables_view(tables@) + Seq::<SchemaView>::empty() =~= tables_view(tables@));
    Ok(tables)
}

/// Whether two strings are equal, byte for byte.
fn same_text(a: &str, b: &str) -> (r: bool)
    ensures
        r == (encode_utf8(a@) == encode_utf8(b@)),
{
    bytes_equal(a.as_bytes(), b.as_bytes())
}

/// The first position of `name` in `columns`.
fn column_position(columns: &Vec<String>, name: &str) -> (r: Option<usize>)
    ensures
        match r {
            Some(i) => position_of(strings_view(columns@), encode_utf8(name@)) == Some(i as int),
            None => position_of(strings_view(columns@), encode_utf8(name@)) is None,
        },
{
    let ghost s = strings_view(columns@);
    let ghost x = encode_utf8(name@);
    let mut i: usize = 0;
    while i < columns.len()
        invariant
            i <= columns@.len(),
            s == strings_view(columns@),
            x == encode_utf8(name@),
            forall|j: int| 0 <= j < i ==> s[j] != x,
        decreases columns.len() - i,
    {
        if same_text(columns[i].as_str(), name) {
            assert(s[i as int] == x);
            let ghost c = choose|k: int| 0 <= k < s.len() && s[k] == x && forall|j: int| 0 <= j < k ==> s[j] != x;
            assert(c == i) by {
                if c < i {
                    assert(s[c] != x);
                } else if c > i {
                    assert(s[i as int] != x);
                }
            }
            return Some(i);
        }
        i = i + 1;
    }
    None
}

impl SQLiteDB {
    /// Opens the database image `data`: reads the page size from the file
    /// header and the catalog from the table tree rooted at page 1.
    pub fn new(data: Vec<u8>) -> (r: Result<SQLiteDB, DbError>)
        ensures
            match r {
                Ok(db) => db.wf() && db@.data == data@ && spec_open(data@) == Ok::<
                    (u16, Seq<SchemaView>),
                    DbError,
                >((db@.page_size as u16, db@.tables)),
                Err(e) => spec_open(data@) == Err::<(u16, Seq<SchemaView>), DbError>(e),
            },
    {
        let header = match DatabaseFileHeader::from_bytes(data.as_slice()) {
            Ok(h) => h,
            Err(e) => return Err(e),
        };
        let page_size = header.page_size;
        let mut db = SQLiteDB { header, data, page_size, tables: Vec::new() };
        let rows = match db.scan(1, None) {
            Ok(rows) => rows,
            Err(e) => return Err(e),
        };
        let tables = match schema_entries(&rows) {
            Ok(t) => t,
            Err(e) => return Err(e),
        };
        db.tables = tables;
        Ok(db)
    }

    pub fn get_tables(&self) -> (r: &[SchemaTable])
        ensures
            tables_view(r@) == self@.tables,
    {
        self.tables.as_slice()
    }

    /// The first table entry named `table_name`.
    pub fn get_table(&self, table_name: &str) -> (r: Option<&SchemaTable>)
        ensures
            match r {
                Some(t) => exists|i: int|
                    0 <= i < self@.tables.len() && t@ == self@.tables[i] && is_table_named(
                        self@.tables[i],
                        encode_utf8(table_name@),
                    ) && forall|j: int|
                        0 <= j < i ==> !is_table_named(self@.tables[j], encode_utf8(table_name@)),
                None => forall|i: int|
                    0 <= i < self@.tables.len() ==> !is_table_named(self@.tables[i], encode_utf8(table_name@)),
            },
    {
        let ghost ts = self@.tables;
        let ghost n = encode_utf8(table_name@);
        let mut i: usize = 0;
        while i < self.tables.len()
            invariant
                i <= self.tables@.len(),
                ts == self@.tables,
                n == encode_utf8(table_name@),
                forall|j: int| 0 <= j < i ==> !is_table_named(ts[j], n),
            decreases self.tables.len() - i,
        {
            let t = &self.tables[i];
            assert(t@ == ts[i as int]);
            if t.object_type == ObjectType::Table && same_text(t.tbl_name.as_str(), table_name) {
                return Some(t);
            }
            i = i + 1;
        }
        None
    }

    /// The first index entry on `table_name` whose first key column is `column`.
    pub fn get_index(&self, table_name: &str, column: &str) -> (r: Option<&SchemaTable>)
        ensures
            match r {
                Some(t) => exists|i: int|
                    0 <= i < self@.tables.len() && t@ == self@.tables[i] && is_index_on(
                        self@.tables[i],
                        encode_utf8(table_name@),
                        encode_utf8(column@),
                    ) && forall|j: int|
                        0 <= j < i ==> !is_index_on(
                            self@.tables[j],
                            encode_utf8(table_name@),
                            encode_utf8(column@),
                        ),
                None => forall|i: int|
                    0 <= i < self@.tables.len() ==> !is_index_on(
                        self@.tables[i],
                        encode_utf8(table_name@),
                        encode_utf8(column@),
                    ),
            },
    {
        let ghost ts = self@.tables;
        let ghost n = encode_utf8(table_name@);
        let ghost c = encode_utf8(column@);
        let mut i: usize = 0;
        while i < self.tables.len()
            invariant
                i <= self.tables@.len(),
                ts == self@.tables,
                n == encode_utf8(table_name@),
                c == encode_utf8(column@),
                forall|j: int| 0 <= j < i ==> !is_index_on(ts[j], n, c),
            decreases self.tables.len() - i,
        {
            let t = &self.tables[i];
            assert(t@ == ts[i as int]);
            if t.object_type == ObjectType::Index && same_text(t.tbl_name.as_str(), table_name)
                && t.indexed_columns.len() > 0 && same_text(t.indexed_columns[0].as_str(), column) {
                return Some(t);
            }
            i = i + 1;
        }
        None
    }

    /// Records the key columns of the catalog entry at `pos`, as resolved
    /// from its creation text.
    pub fn set_indexed_columns(&mut self, pos: usize, columns: Vec<String>)
        requires
            old(self).wf(),
            pos < old(self)@.tables.len(),
        ensures
            final(self).wf(),
            final(self)@.data == old(self)@.data,
            final(self)@.page_size == old(self)@.page_size,
            final(self)@.tables == old(self)@.tables.update(
                pos as int,
                SchemaView { indexed_columns: strings_view(columns@), ..old(self)@.tables[pos as int] },
            ),
    {
        let old_t = &self.tables[pos];
        let t = SchemaTable {
            object_type: old_t.object_type,
            name: old_t.name.clone(),
            tbl_name: old_t.tbl_name.clone(),
            rootpage: old_t.rootpage,
            sql: match &old_t.sql {
                Some(s) => Some(s.clone()),
                None => None,
            },
            indexed_columns: columns,
        };
        let ghost before = self.tables@;
        self.tables.set(pos, t);
        assert(tables_view(self.tables@) =~= tables_view(before).update(pos as int, t@));
    }

    pub fn get_page_size(&self) -> (r: u16)
        ensures
            r as nat == self@.page_size,
    {
        self.page_size
    }

    /// The rows of `table`, in breadth-first leaf order; with a where clause,
    /// only those whose named column (resolved against `column_def`) renders
    /// exactly as the clause's value.
    #[verifier::rlimit(50)]
    pub fn get_table_rows(
        &self,
        table: &SchemaTable,
        column_def: &Vec<String>,
        where_clause: Option<&WhereClause>,
    ) -> (r: Result<Vec<TableLeafCell>, DbError>)
        requires
            self.wf(),
        ensures
            match r {
                Ok(v) => spec_table_rows(self@, table@, strings_view(column_def@), where_view(where_clause))
                    == Ok::<Seq<RowView>, DbError>(rows_view(v@)),
                Err(e) => spec_table_rows(self@, table@, strings_view(column_def@), where_view(where_clause))
                    == Err::<Seq<RowView>, DbError>(e),
            },
    {
        let root = match table.rootpage {
            Some(p) => p,
            None => return Err(DbError::MissingRootPage),
        };
        match where_clause {
            None => self.scan(root, None),
            Some(w) => {
                let column_idx = match column_position(column_def, w.column.as_str()) {
                    Some(i) => i,
                    None => return Err(DbError::UnresolvedColumn),
                };
                let filter = RowFilter { column_idx, value: w.value.clone() };
                self.scan(root, Some(&filter))
            },
        }
    }
}

/// The model of a where clause: column name and literal, as UTF-8 bytes.
pub open spec fn where_view(w: Option<&WhereClause>) -> Option<(Seq<u8>, Seq<u8>)> {
    match w {
        Some(c) => Some((encode_utf8(c.column@), encode_utf8(c.value@))),
        None => None,
    }
}

} // verus!
