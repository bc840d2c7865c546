use vstd::prelude::*;
use vstd::utf8::encode_utf8;

use crate::cell::{spec_table_interior, spec_table_leaf, TableInteriorCell, TableLeafCell};
use crate::database_file_header::DATABASE_FILE_HEADER_SIZE;
use crate::error::{prepend, DbError};
use crate::reader::{be_value, lemma_be_value_fits, read_be, read_byte};
use crate::serial_value::{renders_as, Value};

verus! {

#[derive(Debug, Clone, Copy, PartialEq, Eq, Structural)]
pub enum PageType {
    InteriorIndexBTreePage,
    InteriorTableBTreePage,
    LeafIndexBTreePage,
    LeafTableBTreePage,
}

/// The page type that a type byte declares: 2, 5, 10 or 13.
pub open spec fn page_type_of(b: u8) -> Option<PageType> {
    if b == 2 {
        Some(PageType::InteriorIndexBTreePage)
    } else if b == 5 {
        Some(PageType::InteriorTableBTreePage)
    } else if b == 10 {
        Some(PageType::LeafIndexBTreePage)
    } else if b == 13 {
        Some(PageType::LeafTableBTreePage)
    } else {
        None
    }
}

impl PageType {
    pub open spec fn spec_is_interior(self) -> bool {
        self is InteriorIndexBTreePage || self is InteriorTableBTreePage
    }

    pub fn from_byte(b: u8) -> (r: Result<PageType, DbError>)
        ensures
            match r {
                Ok(t) => page_type_of(b) == Some(t),
                Err(e) => page_type_of(b) is None && e == DbError::UnsupportedPageType,
            },
    {
        if b == 2 {
            Ok(PageType::InteriorIndexBTreePage)
        } else if b == 5 {
            Ok(PageType::InteriorTableBTreePage)
        } else if b == 10 {
            Ok(PageType::LeafIndexBTreePage)
        } else if b == 13 {
            Ok(PageType::LeafTableBTreePage)
        } else {
            Err(DbError::UnsupportedPageType)
        }
    }

    pub fn is_interior_page(&self) -> (r: bool)
        ensures
            r == self.spec_is_interior(),
    {
        match self {
            PageType::InteriorIndexBTreePage | PageType::InteriorTableBTreePage => true,
            _ => false,
        }
    }
}

/// The model of a parsed page.
pub struct PageView {
    pub page_type: PageType,
    pub first_freeblock: u16,
    pub cell_count: u16,
    pub content_area_start_at: u16,
    pub fragmented_free_bytes_count: u8,
    pub right_most_pointer: Option<u32>,
    pub cell_pointers: Seq<u16>,
    pub data: Seq<u8>,
}

/// Where the B-tree header of a page starts: after the file header on page 1.
pub open spec fn header_start(is_first_page: bool) -> int {
    if is_first_page {
        DATABASE_FILE_HEADER_SIZE as int
    } else {
        0
    }
}

/// End of the B-tree header that starts at `h`: 12 bytes on interior pages, 8 on leaves.
pub open spec fn header_end(h: int, t: PageType) -> int {
    if t.spec_is_interior() {
        h + 12
    } else {
        h + 8
    }
}

/// The `count` big-endian 2-byte cell pointers at `pos`.
pub open spec fn pointers_at(data: Seq<u8>, pos: int, count: nat) -> Seq<u16> {
    Seq::new(count, |i: int| be_value(data.subrange(pos + 2 * i, pos + 2 * i + 2)) as u16)
}

/// Whether every pointer lies in `[lo, hi)`.
pub open spec fn pointers_within(ptrs: Seq<u16>, lo: int, hi: int) -> bool {
    forall|i: int| 0 <= i < ptrs.len() ==> lo <= #[trigger] ptrs[i] < hi
}

/// Decoding of the B-tree header and cell-pointer array of a whole page.
pub open spec fn spec_page(data: Seq<u8>, is_first_page: bool) -> Result<PageView, DbError> {
    let h = header_start(is_first_page);
    if h >= data.len() {
        Err(DbError::Truncated)
    } else {
        match page_type_of(data[h]) {
            None => Err(DbError::UnsupportedPageType),
            Some(t) => {
                let end = header_end(h, t);
                if end > data.len() {
                    Err(DbError::Truncated)
                } else {
                    let count = be_value(data.subrange(h + 3, h + 5));
                    if end + 2 * count > data.len() {
                        Err(DbError::Truncated)
                    } else {
                        let ptrs = pointers_at(data, end, count);
                        if !pointers_within(ptrs, end, data.len() as int) {
                            Err(DbError::CellOutOfPage)
                        } else {
                            Ok(
                                PageView {
                                    page_type: t,
                                    first_freeblock: be_value(data.subrange(h + 1, h + 3)) as u16,
                                    cell_count: count as u16,
                                    content_area_start_at: be_value(data.subrange(h + 5, h + 7)) as u16,
                                    fragmented_free_bytes_count: data[h + 7],
                                    right_most_pointer: if t.spec_is_interior() {
                                        Some(be_value(data.subrange(h + 8, h + 12)) as u32)
                                    } else {
                                        None
                                    },
                                    cell_pointers: ptrs,
                                    data,
                                },
                            )
                        }
                    }
                }
            },
        }
    }
}

/// The bytes of the cell that starts at `ptr`, up to the end of the page.
pub open spec fn cell_bytes(data: Seq<u8>, ptr: u16) -> Seq<u8> {
    data.subrange(ptr as int, data.len() as int)
}

/// The left children of the table interior cells at `ptrs`, in pointer order.
pub open spec fn spec_left_children(data: Seq<u8>, ptrs: Seq<u16>) -> Result<Seq<usize>, DbError>
    decreases ptrs.len(),
{
    if ptrs.len() == 0 {
        Ok(Seq::empty())
    } else {
        match spec_table_interior(cell_bytes(data, ptrs[0])) {
            Err(e) => Err(e),
            Ok((_, child)) => prepend(seq![child], spec_left_children(data, ptrs.drop_first())),
        }
    }
}

/// The child pages of a table interior page: each cell's left child in
/// pointer order, then the right-most child.
pub open spec fn spec_child_pages(p: PageView) -> Result<Seq<usize>, DbError> {
    match spec_left_children(p.data, p.cell_pointers) {
        Err(e) => Err(e),
        Ok(cs) => match p.right_most_pointer {
            Some(r) => Ok(cs.push(r as usize)),
            None => Ok(cs),
        },
    }
}

/// An equality filter on one column, by position: a row is kept when the
/// rendered form of that column is exactly `value`.
#[derive(Debug, Clone)]
pub struct RowFilter {
    pub column_idx: usize,
    pub value: String,
}

/// The model of a filter: column position and the literal's UTF-8 bytes.
pub open spec fn filter_view(f: Option<&RowFilter>) -> Option<(usize, Seq<u8>)> {
    match f {
        Some(rf) => Some((rf.column_idx, encode_utf8(rf.value@))),
        None => None,
    }
}

/// Whether a row passes the filter; a row without the filtered column does not.
pub open spec fn keeps(row: (u64, Seq<Value>), f: Option<(usize, Seq<u8>)>) -> bool {
    match f {
        None => true,
        Some((i, lit)) => i < row.1.len() && renders_as(row.1[i as int], lit),
    }
}

/// The rows of the table leaf cells at `ptrs` that pass the filter, in pointer order.
pub open spec fn spec_leaf_rows(data: Seq<u8>, ptrs: Seq<u16>, f: Option<(usize, Seq<u8>)>) -> Result<
    Seq<(u64, Seq<Value>)>,
    DbError,
>
    decreases ptrs.len(),
{
    if ptrs.len() == 0 {
        Ok(Seq::empty())
    } else {
        match spec_table_leaf(cell_bytes(data, ptrs[0])) {
            Err(e) => Err(e),
            Ok(row) => prepend(
                if keeps(row, f) {
                    seq![row]
                } else {
                    Seq::empty()
                },
                spec_leaf_rows(data, ptrs.drop_first(), f),
            ),
        }
    }
}

/// The model of a sequence of table leaf cells.
pub open spec fn rows_view(s: Seq<TableLeafCell>) -> Seq<(u64, Seq<Value>)> {
    s.map_values(|c: TableLeafCell| c@)
}

#[derive(Debug)]
pub struct BTreePage {
    pub page_type: PageType,
    pub first_freeblock: u16,
    pub cell_count: u16,
    pub content_area_start_at: u16,
    pub fragmented_free_bytes_count: u8,
    pub right_most_pointer: Option<u32>,
    pub cell_pointers: Vec<u16>,
    pub data: Vec<u8>,
}

impl View for BTreePage {
    type V = PageView;

    open spec fn view(&self) -> PageView {
        PageView {
            page_type: self.page_type,
            first_freeblock: self.first_freeblock,
            cell_count: self.cell_count,
            content_area_start_at: self.content_area_start_at,
            fragmented_free_bytes_count: self.fragmented_free_bytes_count,
            right_most_pointer: self.right_most_pointer,
            cell_pointers: self.cell_pointers@,
            data: self.data@,
        }
    }
}

/// Reads `count` cell pointers at `end` and checks that each lies in `[end, data.len())`.
fn read_cell_pointers(data: &[u8], end: usize, count: usize) -> (r: Result<Vec<u16>, DbError>)
    requires
        end <= data@.len(),
    ensures
        match r {
            Ok(v) => end + 2 * count <= data@.len() && v@ == pointers_at(data@, end as int, count as nat)
                && pointers_within(v@, end as int, data@.len() as int),
            Err(e) => if end + 2 * count > data@.len() {
                e == DbError::Truncated
            } else {
                !pointers_within(pointers_at(data@, end as int, count as nat), end as int, data@.len() as int)
                    && e == DbError::CellOutOfPage
            },
        },
{
    if count > (data.len() - end) / 2 {
        return Err(DbError::Truncated);
    }
    let mut cell_pointers: Vec<u16> = Vec::with_capacity(count);
    let mut i: usize = 0;
    while i < count
        invariant
            i <= count,
            end + 2 * count <= data.len(),
            cell_pointers@ =~= pointers_at(data@, end as int, i as nat),
        decreases count - i,
    {
        let (v, _) = match read_be(data, end + 2 * i, 2) {
            Ok(x) => x,
            Err(e) => return Err(e),
        };
        proof {
            lemma_be_value_fits(data@.subrange(end + 2 * i, end + 2 * i + 2));
        }
        cell_pointers.push(v as u16);
        i = i + 1;
    }
    let mut j: usize = 0;
    while j < count
        invariant
            j <= count,
            end + 2 * count <= data@.len(),
            cell_pointers@ == pointers_at(data@, end as int, count as nat),
            pointers_within(cell_pointers@.take(j as int), end as int, data@.len() as int),
        decreases count - j,
    {
        let ptr = cell_pointers[j] as usize;
        if ptr < end || ptr >= data.len() {
            assert(!pointers_within(cell_pointers@, end as int, data@.len() as int));
            return Err(DbError::CellOutOfPage);
        }
        assert(cell_pointers@.take(j + 1) =~= cell_pointers@.take(j as int).push(cell_pointers@[j as int]));
        j = j + 1;
    }
    assert(cell_pointers@.take(count as int) =~= cell_pointers@);
    Ok(cell_pointers)
}

impl BTreePage {
    /// Every cell pointer lies inside the page's bytes.
    pub open spec fn wf(&self) -> bool {
        pointers_within(self.cell_pointers@, 0, self.data@.len() as int)
    }

    /// Parses the header and cell pointers of the page whose bytes are `data`.
    pub fn parse(data: Vec<u8>, is_first_page: bool) -> (r: Result<BTreePage, DbError>)
        ensures
            match r {
                Ok(p) => spec_page(data@, is_first_page) == Ok::<PageView, DbError>(p@) && p.wf(),
                Err(e) => spec_page(data@, is_first_page) == Err::<PageView, DbError>(e),
            },
    {
        let h: usize = if is_first_page {
            DATABASE_FILE_HEADER_SIZE
        } else {
            0
        };
        let (type_byte, _) = match read_byte(data.as_slice(), h) {
            Ok(x) => x,
            Err(e) => return Err(e),
        };
        let page_type = match PageType::from_byte(type_byte) {
            Ok(t) => t,
            Err(e) => return Err(e),
        };
        let end: usize = if page_type.is_interior_page() {
            h + 12
        } else {
            h + 8
        };
        if end > data.len() {
            return Err(DbError::Truncated);
        }
        let (first_freeblock, _) = match read_be(data.as_slice(), h + 1, 2) {
            Ok(x) => x,
            Err(e) => return Err(e),
        };
        let (cell_count, _) = match read_be(data.as_slice(), h + 3, 2) {
            Ok(x) => x,
            Err(e) => return Err(e),
        };
        let (content_area_start_at, _) = match read_be(data.as_slice(), h + 5, 2) {
            Ok(x) => x,
            Err(e) => return Err(e),
        };
        let fragmented_free_bytes_count = data[h + 7];
        let right_most_pointer = if page_type.is_interior_page() {
            match read_be(data.as_slice(), h + 8, 4) {
                Ok((v, _)) => {
                    proof {
                        lemma_be_value_fits(data@.subrange(h + 8, h + 12));
                    }
                    Some(v as u32)
                },
                Err(e) => return Err(e),
            }
        } else {
            None
        };
        proof {
            lemma_be_value_fits(data@.subrange(h + 3, h + 5));
            lemma_be_value_fits(data@.subrange(h + 1, h + 3));
            lemma_be_value_fits(data@.subrange(h + 5, h + 7));
        }
        let count = cell_count as usize;
        let cell_pointers = match read_cell_pointers(data.as_slice(), end, count) {
            Ok(v) => v,
            Err(e) => return Err(e),
        };
        let page = BTreePage {
            page_type,
            first_freeblock: first_freeblock as u16,
            cell_count: cell_count as u16,
            content_area_start_at: content_area_start_at as u16,
            fragmented_free_bytes_count,
            right_most_pointer,
            cell_pointers,
            data,
        };
        assert(page@ == spec_page(data@, is_first_page)->Ok_0);
        Ok(page)
    }
}

impl BTreePage {
    /// The child page numbers of a table interior page: each cell's left
    /// child in pointer order, then the right-most child.
    pub fn get_child_pages(&self) -> (r: Result<Vec<usize>, DbError>)
        requires
            self.wf(),
        ensures
            match r {
                Ok(v) => spec_child_pages(self@) == Ok::<Seq<usize>, DbError>(v@),
                Err(e) => spec_child_pages(self@) == Err::<Seq<usize>, DbError>(e),
            },
    {
        let mut children: Vec<usize> = Vec::new();
        let mut i: usize = 0;
        let ghost ptrs = self.cell_pointers@;
        let ghost data = self.data@;
        assert(ptrs.skip(0) =~= ptrs);
        while i < self.cell_pointers.len()
            invariant
                self.wf(),
                i <= ptrs.len(),
                ptrs == self.cell_pointers@,
                data == self.data@,
                spec_left_children(data, ptrs) == prepend(
                    children@,
                    spec_left_children(data, ptrs.skip(i as int)),
                ),
            decreases ptrs.len() - i,
        {
            let ghost rest = ptrs.skip(i as int);
            assert(rest[0] == ptrs[i as int]);
            assert(rest.drop_first() =~= ptrs.skip(i + 1));
            let start = self.cell_pointers[i] as usize;
            let cell = vstd::slice::slice_subrange(self.data.as_slice(), start, self.data.len());
            assert(cell@ == cell_bytes(data, ptrs[i as int]));
            let c = match TableInteriorCell::parse(cell) {
                Ok(c) => c,
                Err(e) => return Err(e),
            };
            proof {
                match spec_left_children(data, ptrs.skip(i + 1)) {
                    Ok(s) => assert(children@ + (seq![c.page_number_of_left_child] + s) =~= children@.push(
                        c.page_number_of_left_child,
                    ) + s),
                    Err(_) => {},
                }
            }
            children.push(c.page_number_of_left_child);
            i = i + 1;
        }
        assert(ptrs.skip(i as int) =~= Seq::<u16>::empty());
        assert(children@ + Seq::<usize>::empty() =~= children@);
        match self.right_most_pointer {
            Some(r) => children.push(r as usize),
            None => {},
        }
        Ok(children)
    }

    /// The rows of a table leaf page that pass the filter, in pointer order.
    pub fn get_rows(&self, filter: Option<&RowFilter>) -> (r: Result<Vec<TableLeafCell>, DbError>)
        requires
            self.wf(),
        ensures
            match r {
                Ok(v) => spec_leaf_rows(self@.data, self@.cell_pointers, filter_view(filter))
                    == Ok::<Seq<(u64, Seq<Value>)>, DbError>(rows_view(v@)),
                Err(e) => spec_leaf_rows(self@.data, self@.cell_pointers, filter_view(filter))
                    == Err::<Seq<(u64, Seq<Value>)>, DbError>(e),
            },
    {
        let mut rows: Vec<TableLeafCell> = Vec::new();
        let mut i: usize = 0;
        let ghost ptrs = self.cell_pointers@;
        let ghost data = self.data@;
        let ghost f = filter_view(filter);
        assert(ptrs.skip(0) =~= ptrs);
        assert(rows_view(rows@) =~= Seq::<(u64, Seq<Value>)>::empty());
        while i < self.cell_pointers.len()
            invariant
                self.wf(),
                i <= ptrs.len(),
                ptrs == self.cell_pointers@,
                data == self.data@,
                f == filter_view(filter),
                spec_leaf_rows(data, ptrs, f) == prepend(
                    rows_view(rows@),
                    spec_leaf_rows(data, ptrs.skip(i as int), f),
                ),
            decreases ptrs.len() - i,
        {
            let ghost rest = ptrs.skip(i as int);
            assert(rest[0] == ptrs[i as int]);
            assert(rest.drop_first() =~= ptrs.skip(i + 1));
            let start = self.cell_pointers[i] as usize;
            let cell = vstd::slice::slice_subrange(self.data.as_slice(), start, self.data.len());
            assert(cell@ == cell_bytes(data, ptrs[i as int]));
            let c = match TableLeafCell::parse(cell) {
                Ok(c) => c,
                Err(e) => return Err(e),
            };
            let keep = match filter {
                None => true,
                Some(rf) => rf.column_idx < c.columns.len() && c.columns[rf.column_idx].renders_as_literal(
                    rf.value.as_str(),
                ),
            };
            assert(keep == keeps(c@, f));
            let ghost before = rows_view(rows@);
            if keep {
                rows.push(c);
                assert(rows_view(rows@) =~= before.push(c@));
            }
            proof {
                match spec_leaf_rows(data, ptrs.skip(i + 1), f) {
                    Ok(s) => {
                        if keep {
                            assert(before + (seq![c@] + s) =~= before.push(c@) + s);
                        } else {
                            assert(before + (Seq::empty() + s) =~= before + s);
                        }
                    },
                    Err(_) => {},
                }
            }
            i = i + 1;
        }
        assert(ptrs.skip(i as int) =~= Seq::<u16>::empty());
        assert(rows_view(rows@) + Seq::<(u64, Seq<Value>)>::empty() =~= rows_view(rows@));
        Ok(rows)
    }
}

} // verus!
