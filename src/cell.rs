use vstd::prelude::*;

use crate::error::{prepend, DbError};
use crate::reader::{lemma_varint_advances, read_be, read_varint, spec_read_be, spec_varint};
use vstd::utf8::encode_utf8;

use crate::serial_value::{
    serial_size,
    as_row_id, read_serial_value, rendered_text, spec_serial_value, SerialValue, Value,
};

verus! {

/// The model of a sequence of column values.
pub open spec fn values_view(s: Seq<SerialValue>) -> Seq<Value> {
    s.map_values(|v: SerialValue| v@)
}

/// The serial type codes of a record header, read one varint after another
/// from `pos` while `pos` lies before `end`; the last must end exactly at `end`.
pub open spec fn spec_serial_types(data: Seq<u8>, pos: int, end: int) -> Result<Seq<u64>, DbError>
    decreases end - pos,
{
    if pos >= end {
        if pos == end {
            Ok(Seq::empty())
        } else {
            Err(DbError::MalformedRecord)
        }
    } else {
        match spec_varint(data, pos) {
            Err(e) => Err(e),
            Ok((c, p)) => if p > end {
                Err(DbError::MalformedRecord)
            } else if p <= pos {
                // never taken: a varint takes at least one byte
                Err(DbError::Truncated)
            } else {
                prepend(seq![c as u64], spec_serial_types(data, p, end))
            },
        }
    }
}

/// The values of the given serial types, read one after another from `pos`.
pub open spec fn spec_values(data: Seq<u8>, pos: int, codes: Seq<u64>) -> Result<Seq<Value>, DbError>
    decreases codes.len(),
{
    if codes.len() == 0 {
        Ok(Seq::empty())
    } else {
        match spec_serial_value(data, pos, codes[0] as nat) {
            Err(e) => Err(e),
            Ok((v, p)) => prepend(seq![v], spec_values(data, p, codes.drop_first())),
        }
    }
}

/// The serial types of the record at `pos`: a header size varint, counted
/// from `pos`, then the codes up to the header's end.
pub open spec fn spec_record_types(data: Seq<u8>, pos: int) -> Result<(Seq<u64>, int), DbError> {
    match spec_varint(data, pos) {
        Err(e) => Err(e),
        Ok((hs, p)) => match spec_serial_types(data, p, pos + hs) {
            Err(e) => Err(e),
            Ok(codes) => Ok((codes, pos + hs)),
        },
    }
}

/// The column values of the record at `pos`.
pub open spec fn spec_record(data: Seq<u8>, pos: int) -> Result<Seq<Value>, DbError> {
    match spec_record_types(data, pos) {
        Err(e) => Err(e),
        Ok((codes, body)) => spec_values(data, body, codes),
    }
}

/// Decodes the record (header, then values) that starts at `pos`.
pub fn read_payload(data: &[u8], pos: usize) -> (r: Result<Vec<SerialValue>, DbError>)
    ensures
        match r {
            Ok(vs) => spec_record(data@, pos as int) == Ok::<Seq<Value>, DbError>(values_view(vs@)),
            Err(e) => spec_record(data@, pos as int) == Err::<Seq<Value>, DbError>(e),
        },
{
    let (header_size, mut p) = match read_varint(data, pos) {
        Ok(x) => x,
        Err(e) => return Err(e),
    };
    proof {
        lemma_varint_advances(data@, pos as int);
    }
    let end: u128 = pos as u128 + header_size as u128;
    let mut codes: Vec<u64> = Vec::new();
    let ghost p0 = p;
    while (p as u128) < end
        invariant
            p <= data@.len(),
            end == pos + header_size,
            spec_varint(data@, pos as int) == Ok::<(nat, int), DbError>((header_size as nat, p0 as int)),
            spec_serial_types(data@, p0 as int, end as int) == prepend(
                codes@,
                spec_serial_types(data@, p as int, end as int),
            ),
        decreases (end as int) - (p as int),
    {
        let (c, q) = match read_varint(data, p) {
            Ok(x) => x,
            Err(e) => {
                return Err(e);
            },
        };
        proof {
            lemma_varint_advances(data@, p as int);
        }
        if (q as u128) > end {
            return Err(DbError::MalformedRecord);
        }
        proof {
            assert(codes@ + seq![c] + Seq::<u64>::empty() =~= codes@.push(c));
            let rest = spec_serial_types(data@, q as int, end as int);
            match rest {
                Ok(s) => assert(codes@ + (seq![c] + s) =~= codes@.push(c) + s),
                Err(_) => {},
            }
        }
        codes.push(c);
        p = q;
    }
    if (p as u128) != end {
        return Err(DbError::MalformedRecord);
    }
    assert(codes@ + Seq::<u64>::empty() =~= codes@);
    let mut columns: Vec<SerialValue> = Vec::new();
    let mut i: usize = 0;
    assert(codes@.skip(0) =~= codes@);
    assert(values_view(columns@) =~= Seq::<Value>::empty());
    let mut q: usize = p;
    let ghost body = p;
    while i < codes.len()
        invariant
            i <= codes@.len(),
            spec_record_types(data@, pos as int) == Ok::<(Seq<u64>, int), DbError>((codes@, body as int)),
            spec_values(data@, body as int, codes@) == prepend(
                values_view(columns@),
                spec_values(data@, q as int, codes@.skip(i as int)),
            ),
        decreases codes.len() - i,
    {
        let ghost rest = codes@.skip(i as int);
        assert(rest[0] == codes@[i as int]);
        assert(rest.drop_first() =~= codes@.skip(i + 1));
        let (v, q2) = match read_serial_value(data, q, codes[i]) {
            Ok(x) => x,
            Err(e) => return Err(e),
        };
        proof {
            assert(values_view(columns@.push(v)) =~= values_view(columns@).push(v@));
            match spec_values(data@, q2 as int, codes@.skip(i + 1)) {
                Ok(s) => assert(values_view(columns@) + (seq![v@] + s) =~= values_view(columns@).push(v@) + s),
                Err(_) => {},
            }
        }
        columns.push(v);
        q = q2;
        i = i + 1;
    }
    assert(codes@.skip(i as int) =~= Seq::<u64>::empty());
    assert(values_view(columns@) + Seq::<Value>::empty() =~= values_view(columns@));
    Ok(columns)
}

} // verus!

verus! {

/// A table leaf cell: payload size varint, row id varint, then the record.
pub open spec fn spec_table_leaf(cell: Seq<u8>) -> Result<(u64, Seq<Value>), DbError> {
    match spec_varint(cell, 0) {
        Err(e) => Err(e),
        Ok((_, p)) => match spec_varint(cell, p) {
            Err(e) => Err(e),
            Ok((row_id, q)) => match spec_record(cell, q) {
                Err(e) => Err(e),
                Ok(columns) => Ok((row_id as u64, columns)),
            },
        },
    }
}

/// A table interior cell: 4-byte left child page number, then the row id varint.
pub open spec fn spec_table_interior(cell: Seq<u8>) -> Result<(u64, usize), DbError> {
    match spec_read_be(cell, 0, 4) {
        Err(e) => Err(e),
        Ok((child, p)) => match spec_varint(cell, p) {
            Err(e) => Err(e),
            Ok((row_id, _)) => Ok((row_id as u64, child as usize)),
        },
    }
}

/// The row id taken off the end of an index record, and the columns before it.
pub open spec fn split_row_id(columns: Seq<Value>) -> Result<(u64, Seq<Value>), DbError> {
    if columns.len() == 0 {
        Err(DbError::MalformedRecord)
    } else {
        match as_row_id(columns.last()) {
            Some(r) => Ok((r, columns.drop_last())),
            None => Err(DbError::MalformedRecord),
        }
    }
}

/// An index payload at `pos`: payload size varint, then a record whose last
/// column is the row id.
pub open spec fn spec_index_payload(cell: Seq<u8>, pos: int) -> Result<(u64, Seq<Value>), DbError> {
    match spec_varint(cell, pos) {
        Err(e) => Err(e),
        Ok((_, p)) => match spec_record(cell, p) {
            Err(e) => Err(e),
            Ok(columns) => split_row_id(columns),
        },
    }
}

/// An index leaf cell: just its payload.
pub open spec fn spec_index_leaf(cell: Seq<u8>) -> Result<(u64, Seq<Value>), DbError> {
    spec_index_payload(cell, 0)
}

/// An index interior cell: 4-byte left child page number, then the payload.
pub open spec fn spec_index_interior(cell: Seq<u8>) -> Result<(usize, u64, Seq<Value>), DbError> {
    match spec_read_be(cell, 0, 4) {
        Err(e) => Err(e),
        Ok((child, p)) => match spec_index_payload(cell, p) {
            Err(e) => Err(e),
            Ok((row_id, columns)) => Ok((child as usize, row_id, columns)),
        },
    }
}

/// Where the first column of an index cell has a UTF-8 rendering, that rendering.
pub open spec fn first_column_text(columns: Seq<Value>) -> Option<Seq<u8>> {
    if columns.len() == 0 {
        None
    } else {
        rendered_text(columns[0])
    }
}

#[derive(Debug)]
pub struct TableLeafCell {
    pub row_id: u64,
    pub columns: Vec<SerialValue>,
}

impl View for TableLeafCell {
    type V = (u64, Seq<Value>);

    open spec fn view(&self) -> (u64, Seq<Value>) {
        (self.row_id, values_view(self.columns@))
    }
}

impl TableLeafCell {
    pub fn parse(cell: &[u8]) -> (r: Result<Self, DbError>)
        ensures
            match r {
                Ok(c) => spec_table_leaf(cell@) == Ok::<(u64, Seq<Value>), DbError>(c@),
                Err(e) => spec_table_leaf(cell@) == Err::<(u64, Seq<Value>), DbError>(e),
            },
    {
        let (_payload_size, p) = match read_varint(cell, 0) {
            Ok(x) => x,
            Err(e) => return Err(e),
        };
        let (row_id, q) = match read_varint(cell, p) {
            Ok(x) => x,
            Err(e) => return Err(e),
        };
        let columns = match read_payload(cell, q) {
            Ok(x) => x,
            Err(e) => return Err(e),
        };
        Ok(TableLeafCell { row_id, columns })
    }
}

#[derive(Debug)]
pub struct TableInteriorCell {
    pub row_id: u64,
    pub page_number_of_left_child: usize,
}

impl View for TableInteriorCell {
    type V = (u64, usize);

    open spec fn view(&self) -> (u64, usize) {
        (self.row_id, self.page_number_of_left_child)
    }
}

impl TableInteriorCell {
    pub fn parse(cell: &[u8]) -> (r: Result<Self, DbError>)
        ensures
            match r {
                Ok(c) => spec_table_interior(cell@) == Ok::<(u64, usize), DbError>(c@),
                Err(e) => spec_table_interior(cell@) == Err::<(u64, usize), DbError>(e),
            },
    {
        let (child, p) = match read_be(cell, 0, 4) {
            Ok(x) => x,
            Err(e) => return Err(e),
        };
        let (row_id, _q) = match read_varint(cell, p) {
            Ok(x) => x,
            Err(e) => return Err(e),
        };
        Ok(TableInteriorCell { row_id, page_number_of_left_child: child as usize })
    }
}

/// Decodes an index payload at `pos` and takes the row id off its end.
fn read_index_payload(cell: &[u8], pos: usize) -> (r: Result<(u64, Vec<SerialValue>), DbError>)
    ensures
        match r {
            Ok((row_id, columns)) => spec_index_payload(cell@, pos as int) == Ok::<
                (u64, Seq<Value>),
                DbError,
            >((row_id, values_view(columns@))),
            Err(e) => spec_index_payload(cell@, pos as int) == Err::<(u64, Seq<Value>), DbError>(e),
        },
{
    let (_payload_size, p) = match read_varint(cell, pos) {
        Ok(x) => x,
        Err(e) => return Err(e),
    };
    let mut columns = match read_payload(cell, p) {
        Ok(x) => x,
        Err(e) => return Err(e),
    };
    let ghost all = columns@;
    let last = match columns.pop() {
        Some(v) => v,
        None => return Err(DbError::MalformedRecord),
    };
    assert(values_view(all).last() == last@);
    assert(values_view(all).drop_last() =~= values_view(columns@));
    match last.into_u64() {
        Some(row_id) => Ok((row_id, columns)),
        None => Err(DbError::MalformedRecord),
    }
}

#[derive(Debug)]
pub struct IndexLeafCell {
    pub row_id: u64,
    pub columns: Vec<SerialValue>,
}

impl View for IndexLeafCell {
    type V = (u64, Seq<Value>);

    open spec fn view(&self) -> (u64, Seq<Value>) {
        (self.row_id, values_view(self.columns@))
    }
}

impl IndexLeafCell {
    pub fn parse(cell: &[u8]) -> (r: Result<Self, DbError>)
        ensures
            match r {
                Ok(c) => spec_index_leaf(cell@) == Ok::<(u64, Seq<Value>), DbError>(c@),
                Err(e) => spec_index_leaf(cell@) == Err::<(u64, Seq<Value>), DbError>(e),
            },
    {
        let (row_id, columns) = match read_index_payload(cell, 0) {
            Ok(x) => x,
            Err(e) => return Err(e),
        };
        Ok(IndexLeafCell { row_id, columns })
    }

    /// The rendering of the first column, the key of a single-column index.
    pub fn get_first_column_value(&self) -> (r: Option<String>)
        ensures
            match r {
                Some(s) => first_column_text(self@.1) == Some(encode_utf8(s@)),
                None => first_column_text(self@.1) is None,
            },
    {
        if self.columns.len() == 0 {
            None
        } else {
            self.columns[0].rendered_string()
        }
    }
}

#[derive(Debug)]
pub struct IndexInteriorCell {
    pub page_number_of_left_child: usize,
    pub row_id: u64,
    pub columns: Vec<SerialValue>,
}

impl View for IndexInteriorCell {
    type V = (usize, u64, Seq<Value>);

    open spec fn view(&self) -> (usize, u64, Seq<Value>) {
        (self.page_number_of_left_child, self.row_id, values_view(self.columns@))
    }
}

impl IndexInteriorCell {
    pub fn parse(cell: &[u8]) -> (r: Result<Self, DbError>)
        ensures
            match r {
                Ok(c) => spec_index_interior(cell@) == Ok::<(usize, u64, Seq<Value>), DbError>(c@),
                Err(e) => spec_index_interior(cell@) == Err::<(usize, u64, Seq<Value>), DbError>(e),
            },
    {
        let (child, p) = match read_be(cell, 0, 4) {
            Ok(x) => x,
            Err(e) => return Err(e),
        };
        let (row_id, columns) = match read_index_payload(cell, p) {
            Ok(x) => x,
            Err(e) => return Err(e),
        };
        Ok(IndexInteriorCell { page_number_of_left_child: child as usize, row_id, columns })
    }

    /// The rendering of the first column, the key of a single-column index.
    pub fn get_first_column_value(&self) -> (r: Option<String>)
        ensures
            match r {
                Some(s) => first_column_text(self@.2) == Some(encode_utf8(s@)),
                None => first_column_text(self@.2) is None,
            },
    {
        if self.columns.len() == 0 {
            None
        } else {
            self.columns[0].rendered_string()
        }
    }
}

} // verus!

verus! {

/// The total body size of the first `i` serial types.
pub open spec fn sizes_before(codes: Seq<u64>, i: int) -> nat
    decreases i,
{
    if i <= 0 || i > codes.len() {
        0
    } else {
        sizes_before(codes, i - 1) + serial_size(codes[i - 1] as nat)
    }
}

proof fn lemma_sizes_before_shift(codes: Seq<u64>, i: int)
    requires
        codes.len() > 0,
        0 <= i < codes.len(),
    ensures
        sizes_before(codes, i + 1) == serial_size(codes[0] as nat) + sizes_before(codes.drop_first(), i),
    decreases i,
{
    if i > 0 {
        lemma_sizes_before_shift(codes, i - 1);
        assert(codes.drop_first()[i - 1] == codes[i]);
        assert(sizes_before(codes, i + 1) == sizes_before(codes, i) + serial_size(codes[i] as nat));
        assert(sizes_before(codes.drop_first(), i) == sizes_before(codes.drop_first(), i - 1) + serial_size(
            codes[i] as nat,
        ));
    } else {
        assert(sizes_before(codes, 0) == 0);
        assert(sizes_before(codes.drop_first(), 0) == 0);
    }
}

#[verifier::rlimit(40)]
proof fn lemma_values_order(data: Seq<u8>, pos: int, codes: Seq<u64>)
    requires
        spec_values(data, pos, codes) is Ok,
    ensures
        spec_values(data, pos, codes)->Ok_0.len() == codes.len(),
        forall|i: int|
            0 <= i < codes.len() ==> spec_serial_value(data, pos + sizes_before(codes, i), codes[i] as nat)
                == Ok::<(Value, int), DbError>(
                (spec_values(data, pos, codes)->Ok_0[i], pos + sizes_before(codes, i + 1)),
            ),
    decreases codes.len(),
{
    if codes.len() > 0 {
        let rest = codes.drop_first();
        let (v, p) = spec_serial_value(data, pos, codes[0] as nat)->Ok_0;
        crate::serial_value::lemma_serial_value_consumes(data, pos, codes[0] as nat);
        lemma_values_order(data, p, rest);
        let vals = spec_values(data, pos, codes)->Ok_0;
        assert forall|i: int| 0 <= i < codes.len() implies spec_serial_value(
            data,
            pos + sizes_before(codes, i),
            codes[i] as nat,
        ) == Ok::<(Value, int), DbError>((vals[i], pos + sizes_before(codes, i + 1))) by {
            lemma_sizes_before_shift(codes, i);
            if i > 0 {
                lemma_sizes_before_shift(codes, i - 1);
                assert(rest[i - 1] == codes[i]);
                assert(pos + sizes_before(codes, i) == p + sizes_before(rest, i - 1));
                assert(pos + sizes_before(codes, i + 1) == p + sizes_before(rest, i));
                assert(vals[i] == spec_values(data, p, rest)->Ok_0[i - 1]);
            } else {
                assert(sizes_before(codes, 0) == 0);
                assert(vals[0] == v);
            }
        }
    }
}

/// Record decoding keeps the header's order: there is one value per serial
/// type, and value `i` is the value of the `i`-th serial type read at the
/// body offset that the sizes of the serial types before it give.
pub proof fn lemma_record_order(data: Seq<u8>, pos: int)
    requires
        spec_record(data, pos) is Ok,
    ensures
        ({
            let (codes, body) = spec_record_types(data, pos)->Ok_0;
            let vals = spec_record(data, pos)->Ok_0;
            &&& spec_record_types(data, pos) is Ok
            &&& vals.len() == codes.len()
            &&& forall|i: int|
                0 <= i < codes.len() ==> spec_serial_value(data, body + sizes_before(codes, i), codes[i] as nat)
                    == Ok::<(Value, int), DbError>((vals[i], body + sizes_before(codes, i + 1)))
        }),
{
    let (codes, body) = spec_record_types(data, pos)->Ok_0;
    lemma_values_order(data, body, codes);
}

/// An index payload whose record ends in a non-negative integer yields that
/// integer as row id and the columns before it; one whose record ends in
/// any other value, or is empty, fails as malformed.
pub proof fn lemma_index_row_id(cell: Seq<u8>, pos: int)
    requires
        spec_varint(cell, pos) is Ok,
        spec_record(cell, spec_varint(cell, pos)->Ok_0.1) is Ok,
    ensures
        ({
            let columns = spec_record(cell, spec_varint(cell, pos)->Ok_0.1)->Ok_0;
            let last_id = if columns.len() > 0 {
                as_row_id(columns.last())
            } else {
                None
            };
            &&& last_id matches Some(r) ==> spec_index_payload(cell, pos) == Ok::<(u64, Seq<Value>), DbError>(
                (r, columns.drop_last()),
            )
            &&& last_id is None ==> spec_index_payload(cell, pos) == Err::<(u64, Seq<Value>), DbError>(
                DbError::MalformedRecord,
            )
        }),
{
}

} // verus!
