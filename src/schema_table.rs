use vstd::prelude::*;
use vstd::utf8::encode_utf8;

use crate::error::DbError;
use crate::serial_value::{bytes_equal, SerialValue, Value};

verus! {

/// The kind of a schema object.
#[derive(Debug, Clone, Copy, PartialEq, Eq, Structural)]
pub enum ObjectType {
    Table,
    Index,
    View,
    Trigger,
}

/// The object kind that a schema row's type text names.
pub open spec fn object_type_of(v: Value) -> Option<ObjectType> {
    match v {
        Value::Text(b) => if b == seq![116u8, 97, 98, 108, 101] {
            Some(ObjectType::Table)
        } else if b == seq![105u8, 110, 100, 101, 120] {
            Some(ObjectType::Index)
        } else if b == seq![118u8, 105, 101, 119] {
            Some(ObjectType::View)
        } else if b == seq![116u8, 114, 105, 103, 103, 101, 114] {
            Some(ObjectType::Trigger)
        } else {
            None
        },
        _ => None,
    }
}

pub open spec fn text_of(v: Value) -> Option<Seq<u8>> {
    match v {
        Value::Text(b) => Some(b),
        _ => None,
    }
}

/// A schema row's root page: a positive integer, or none for 0 and null.
pub open spec fn rootpage_of(v: Value) -> Option<Option<usize>> {
    match v {
        Value::Null => Some(None),
        Value::Integer(n) => if n == 0 {
            Some(None)
        } else if 0 < n <= usize::MAX {
            Some(Some(n as usize))
        } else {
            None
        },
        _ => None,
    }
}

/// A schema row's creation text: text, or none for null.
pub open spec fn sql_of(v: Value) -> Option<Option<Seq<u8>>> {
    match v {
        Value::Null => Some(None),
        Value::Text(b) => Some(Some(b)),
        _ => None,
    }
}

/// The model of a catalog entry; strings are held as their UTF-8 bytes.
pub struct SchemaView {
    pub object_type: ObjectType,
    pub name: Seq<u8>,
    pub tbl_name: Seq<u8>,
    pub rootpage: Option<usize>,
    pub sql: Option<Seq<u8>>,
    pub indexed_columns: Seq<Seq<u8>>,
}

/// The catalog entry that a schema row (type, name, table name, root page,
/// creation text) describes; no indexed columns are known yet.
pub open spec fn spec_schema_entry(columns: Seq<Value>) -> Result<SchemaView, DbError> {
    if columns.len() < 5 {
        Err(DbError::MalformedRecord)
    } else if object_type_of(columns[0]) is None || text_of(columns[1]) is None
        || text_of(columns[2]) is None || rootpage_of(columns[3]) is None || sql_of(
        columns[4],
    ) is None {
        Err(DbError::MalformedRecord)
    } else {
        Ok(
            SchemaView {
                object_type: object_type_of(columns[0])->Some_0,
                name: text_of(columns[1])->Some_0,
                tbl_name: text_of(columns[2])->Some_0,
                rootpage: rootpage_of(columns[3])->Some_0,
                sql: sql_of(columns[4])->Some_0,
                indexed_columns: Seq::empty(),
            },
        )
    }
}

/// The UTF-8 bytes of each string.
pub open spec fn strings_view(s: Seq<String>) -> Seq<Seq<u8>> {
    s.map_values(|x: String| encode_utf8(x@))
}

/// One entry of the schema catalog.
#[derive(Debug, Clone)]
pub struct SchemaTable {
    pub object_type: ObjectType,
    pub name: String,
    pub tbl_name: String,
    pub rootpage: Option<usize>,
    pub sql: Option<String>,
    /// The key columns of an index, once its creation text has been resolved.
    pub indexed_columns: Vec<String>,
}

impl View for SchemaTable {
    type V = SchemaView;

    open spec fn view(&self) -> SchemaView {
        SchemaView {
            object_type: self.object_type,
            name: encode_utf8(self.name@),
            tbl_name: encode_utf8(self.tbl_name@),
            rootpage: self.rootpage,
            sql: match self.sql {
                Some(s) => Some(encode_utf8(s@)),
                None => None,
            },
            indexed_columns: strings_view(self.indexed_columns@),
        }
    }
}

fn object_type_from(v: &SerialValue) -> (r: Option<ObjectType>)
    ensures
        r == object_type_of(v@),
{
    match v {
        SerialValue::Text(s) => {
            let b = s.as_str().as_bytes();
            let table: Vec<u8> = vec![116u8, 97, 98, 108, 101];
            let index: Vec<u8> = vec![105u8, 110, 100, 101, 120];
            let view: Vec<u8> = vec![118u8, 105, 101, 119];
            let trigger: Vec<u8> = vec![116u8, 114, 105, 103, 103, 101, 114];
            assert(table@ =~= seq![116u8, 97, 98, 108, 101]);
            assert(index@ =~= seq![105u8, 110, 100, 101, 120]);
            assert(view@ =~= seq![118u8, 105, 101, 119]);
            assert(trigger@ =~= seq![116u8, 114, 105, 103, 103, 101, 114]);
            if bytes_equal(b, table.as_slice()) {
                Some(ObjectType::Table)
            } else if bytes_equal(b, index.as_slice()) {
                Some(ObjectType::Index)
            } else if bytes_equal(b, view.as_slice()) {
                Some(ObjectType::View)
            } else if bytes_equal(b, trigger.as_slice()) {
                Some(ObjectType::Trigger)
            } else {
                None
            }
        },
        _ => None,
    }
}

fn text_from(v: &SerialValue) -> (r: Option<String>)
    ensures
        match r {
            Some(s) => text_of(v@) == Some(encode_utf8(s@)),
            None => text_of(v@) is None,
        },
{
    match v {
        SerialValue::Text(s) => Some(s.clone()),
        _ => None,
    }
}

fn rootpage_from(v: &SerialValue) -> (r: Option<Option<usize>>)
    ensures
        r == rootpage_of(v@),
{
    match v {
        SerialValue::Null => Some(None),
        SerialValue::Integer(n) => {
            if *n == 0 {
                Some(None)
            } else if *n > 0 && (*n as u64) <= usize::MAX as u64 {
                Some(Some(*n as usize))
            } else {
                None
            }
        },
        _ => None,
    }
}

impl SchemaTable {
    /// The catalog entry that a schema row describes.
    pub fn from_row(columns: &Vec<SerialValue>) -> (r: Result<SchemaTable, DbError>)
        ensures
            match r {
                Ok(t) => spec_schema_entry(crate::cell::values_view(columns@)) == Ok::<SchemaView, DbError>(t@),
                Err(e) => spec_schema_entry(crate::cell::values_view(columns@)) == Err::<SchemaView, DbError>(e),
            },
    {
        if columns.len() < 5 {
            return Err(DbError::MalformedRecord);
        }
        let object_type = match object_type_from(&columns[0]) {
            Some(t) => t,
            None => return Err(DbError::MalformedRecord),
        };
        let name = match text_from(&columns[1]) {
            Some(s) => s,
            None => return Err(DbError::MalformedRecord),
        };
        let tbl_name = match text_from(&columns[2]) {
            Some(s) => s,
            None => return Err(DbError::MalformedRecord),
        };
        let rootpage = match rootpage_from(&columns[3]) {
            Some(p) => p,
            None => return Err(DbError::MalformedRecord),
        };
        let sql = match &columns[4] {
            SerialValue::Null => None,
            SerialValue::Text(s) => Some(s.clone()),
            _ => return Err(DbError::MalformedRecord),
        };
        let t = SchemaTable { object_type, name, tbl_name, rootpage, sql, indexed_columns: Vec::new() };
        assert(t@.indexed_columns =~= Seq::<Seq<u8>>::empty());
        Ok(t)
    }

    pub open spec fn spec_is_table(&self) -> bool {
        self.object_type is Table
    }
}

} // verus!
