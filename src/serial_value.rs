use vstd::prelude::*;
use vstd::utf8::{encode_utf8, valid_utf8};

use crate::error::DbError;
use crate::reader::{be_value, pow256, read_be};

verus! {

/// One typed column value as stored in a record.
#[derive(Debug, Clone, PartialEq)]
pub enum SerialValue {
    Null,
    Integer(i64),
    /// A 64-bit IEEE float, kept as its raw bits.
    Float(u64),
    Text(String),
    Blob(Vec<u8>),
}

/// The mathematical model of a column value; text is held as its UTF-8 bytes.
pub enum Value {
    Null,
    Integer(int),
    Float(u64),
    Text(Seq<u8>),
    Blob(Seq<u8>),
}

impl View for SerialValue {
    type V = Value;

    open spec fn view(&self) -> Value {
        match self {
            SerialValue::Null => Value::Null,
            SerialValue::Integer(i) => Value::Integer(*i as int),
            SerialValue::Float(b) => Value::Float(*b),
            SerialValue::Text(s) => Value::Text(encode_utf8(s@)),
            SerialValue::Blob(b) => Value::Blob(b@),
        }
    }
}

/// Number of body bytes that a value of serial type `code` takes.
pub open spec fn serial_size(code: nat) -> nat {
    if code <= 4 {
        code
    } else if code == 5 {
        6
    } else if code == 6 || code == 7 {
        8
    } else if code <= 11 {
        0
    } else if code % 2 == 0 {
        ((code - 12) / 2) as nat
    } else {
        ((code - 13) / 2) as nat
    }
}

/// The two's complement reading of an `n`-byte unsigned number `u`.
pub open spec fn signed_of(u: nat, n: nat) -> int {
    if 2 * u >= pow256(n) {
        u - pow256(n)
    } else {
        u as int
    }
}

/// The value that `bytes`, the whole body of a value of serial type `code`, encode.
pub open spec fn value_of(code: nat, bytes: Seq<u8>) -> Result<Value, DbError> {
    if code == 0 {
        Ok(Value::Null)
    } else if code <= 6 {
        Ok(Value::Integer(signed_of(be_value(bytes), serial_size(code))))
    } else if code == 7 {
        Ok(Value::Float(be_value(bytes) as u64))
    } else if code == 8 {
        Ok(Value::Integer(0))
    } else if code == 9 {
        Ok(Value::Integer(1))
    } else if code <= 11 {
        Err(DbError::UnsupportedSerialType)
    } else if code % 2 == 0 {
        Ok(Value::Blob(bytes))
    } else if valid_utf8(bytes) {
        Ok(Value::Text(bytes))
    } else {
        Err(DbError::InvalidUtf8)
    }
}

/// Decoding of the value of serial type `code` whose body starts at `pos`:
/// the value and the position just after its body.
pub open spec fn spec_serial_value(data: Seq<u8>, pos: int, code: nat) -> Result<(Value, int), DbError> {
    if code == 10 || code == 11 {
        Err(DbError::UnsupportedSerialType)
    } else if pos < 0 || pos + serial_size(code) > data.len() {
        Err(DbError::Truncated)
    } else {
        match value_of(code, data.subrange(pos, pos + serial_size(code))) {
            Ok(v) => Ok((v, pos + serial_size(code))),
            Err(e) => Err(e),
        }
    }
}

/// Whether a decoded value has the kind that its serial type declares.
pub open spec fn kind_matches(code: nat, v: Value) -> bool {
    if code == 0 {
        v is Null
    } else if code <= 6 || code == 8 || code == 9 {
        v is Integer
    } else if code == 7 {
        v is Float
    } else if code >= 12 && code % 2 == 0 {
        v is Blob
    } else {
        code >= 13 && v is Text
    }
}

/// The decimal digits of `n`, as ASCII bytes.
pub open spec fn digits(n: nat) -> Seq<u8>
    decreases n,
{
    if n < 10 {
        seq![(48 + n) as u8]
    } else {
        digits(n / 10).push((48 + n % 10) as u8)
    }
}

/// The decimal rendering of `i`, with a leading '-' when negative.
pub open spec fn decimal(i: int) -> Seq<u8> {
    if i < 0 {
        seq![45u8] + digits((-i) as nat)
    } else {
        digits(i as nat)
    }
}

/// The rendered form of a value, as bytes; floats have none here.
pub open spec fn rendered(v: Value) -> Option<Seq<u8>> {
    match v {
        Value::Null => Some(seq![78u8, 85u8, 76u8, 76u8]),
        Value::Integer(i) => Some(decimal(i)),
        Value::Float(_) => None,
        Value::Text(b) => Some(b),
        Value::Blob(b) => Some(b),
    }
}

/// The rendered form of a value where it is well-formed UTF-8.
pub open spec fn rendered_text(v: Value) -> Option<Seq<u8>> {
    match rendered(v) {
        Some(b) => if valid_utf8(b) { Some(b) } else { None },
        None => None,
    }
}

/// Whether the rendered form of `v` is exactly the string whose UTF-8 bytes are `lit`.
pub open spec fn renders_as(v: Value, lit: Seq<u8>) -> bool {
    rendered(v) == Some(lit)
}

/// Relies on std's String::from_utf8: it accepts exactly the well-formed
/// UTF-8 byte strings, and the string it returns has those bytes as its encoding.
#[verifier::external_body]
fn string_from_utf8(bytes: Vec<u8>) -> (r: Option<String>)
    ensures
        r is Some <==> valid_utf8(bytes@),
        r matches Some(s) ==> encode_utf8(s@) == bytes@,
{
    String::from_utf8(bytes).ok()
}

/// Copies `data[start..end]` into a vector.
pub fn copy_range(data: &[u8], start: usize, end: usize) -> (r: Vec<u8>)
    requires
        start <= end <= data@.len(),
    ensures
        r@ == data@.subrange(start as int, end as int),
{
    let mut out: Vec<u8> = Vec::with_capacity(end - start);
    let mut i: usize = start;
    while i < end
        invariant
            start <= i <= end <= data@.len(),
            out@ == data@.subrange(start as int, i as int),
        decreases end - i,
    {
        out.push(data[i]);
        i = i + 1;
        assert(out@ =~= data@.subrange(start as int, i as int));
    }
    out
}

/// Body size of serial type `code`.
pub fn serial_size_of(code: u64) -> (r: u64)
    ensures
        r == serial_size(code as nat),
{
    if code <= 4 {
        code
    } else if code == 5 {
        6
    } else if code == 6 || code == 7 {
        8
    } else if code <= 11 {
        0
    } else if code % 2 == 0 {
        (code - 12) / 2
    } else {
        (code - 13) / 2
    }
}

/// Two's complement reading of the `n`-byte number `u`.
fn sign_extend(u: u64, n: u64) -> (r: i64)
    requires
        n == 1 || n == 2 || n == 3 || n == 4 || n == 6 || n == 8,
        u < pow256(n as nat),
    ensures
        r as int == signed_of(u as nat, n as nat),
{
    proof {
        reveal_with_fuel(pow256, 9);
    }
    if n == 8 {
        if u >= 0x8000_0000_0000_0000 {
            ((u - 0x8000_0000_0000_0000) as i64) - 0x7fff_ffff_ffff_ffff - 1
        } else {
            u as i64
        }
    } else {
        let p: u64 = if n == 1 {
            0x100
        } else if n == 2 {
            0x1_0000
        } else if n == 3 {
            0x100_0000
        } else if n == 4 {
            0x1_0000_0000
        } else {
            0x1_0000_0000_0000
        };
        if 2 * u >= p {
            (u as i64) - (p as i64)
        } else {
            u as i64
        }
    }
}

/// Decodes the value of serial type `code` whose body starts at `pos`.
pub fn read_serial_value(data: &[u8], pos: usize, code: u64) -> (r: Result<(SerialValue, usize), DbError>)
    ensures
        match r {
            Ok((v, p)) => spec_serial_value(data@, pos as int, code as nat) == Ok::<(Value, int), DbError>(
                (v@, p as int),
            ),
            Err(e) => spec_serial_value(data@, pos as int, code as nat) == Err::<(Value, int), DbError>(e),
        },
{
    if code == 10 || code == 11 {
        return Err(DbError::UnsupportedSerialType);
    }
    let size = serial_size_of(code);
    if pos > data.len() || size > (data.len() - pos) as u64 {
        return Err(DbError::Truncated);
    }
    let end: usize = pos + size as usize;
    let ghost bytes = data@.subrange(pos as int, end as int);
    if code == 0 {
        Ok((SerialValue::Null, end))
    } else if code <= 7 {
        let (u, _) = match read_be(data, pos, size as usize) {
            Ok(x) => x,
            Err(e) => return Err(e),
        };
        proof {
            crate::reader::lemma_be_value_bound(bytes);
        }
        if code == 7 {
            Ok((SerialValue::Float(u), end))
        } else {
            Ok((SerialValue::Integer(sign_extend(u, size)), end))
        }
    } else if code == 8 {
        Ok((SerialValue::Integer(0), end))
    } else if code == 9 {
        Ok((SerialValue::Integer(1), end))
    } else if code % 2 == 0 {
        Ok((SerialValue::Blob(copy_range(data, pos, end)), end))
    } else {
        match string_from_utf8(copy_range(data, pos, end)) {
            Some(s) => Ok((SerialValue::Text(s), end)),
            None => Err(DbError::InvalidUtf8),
        }
    }
}

/// Appends the decimal digits of `n` to `out`.
fn push_digits(n: u64, out: &mut Vec<u8>)
    ensures
        final(out)@ == old(out)@ + digits(n as nat),
    decreases n,
{
    if n >= 10 {
        push_digits(n / 10, out);
    }
    out.push(48 + (n % 10) as u8);
    assert(out@ =~= old(out)@ + digits(n as nat));
}

/// The decimal rendering of `i`, as ASCII bytes.
pub fn render_integer(i: i64) -> (r: Vec<u8>)
    ensures
        r@ == decimal(i as int),
{
    let mut out: Vec<u8> = Vec::new();
    if i < 0 {
        out.push(45u8);
        let m: u64 = if i == i64::MIN {
            0x8000_0000_0000_0000
        } else {
            (-i) as u64
        };
        push_digits(m, &mut out);
        assert(out@ =~= seq![45u8] + digits((-i) as nat));
    } else {
        push_digits(i as u64, &mut out);
        assert(out@ =~= digits(i as nat));
    }
    out
}

/// Whether two byte strings are equal.
pub fn bytes_equal(a: &[u8], b: &[u8]) -> (r: bool)
    ensures
        r == (a@ == b@),
{
    if a.len() != b.len() {
        return false;
    }
    let mut i: usize = 0;
    while i < a.len()
        invariant
            a@.len() == b@.len(),
            i <= a@.len(),
            forall|j: int| 0 <= j < i ==> a@[j] == b@[j],
        decreases a.len() - i,
    {
        if a[i] != b[i] {
            return false;
        }
        i = i + 1;
    }
    assert(a@ =~= b@);
    true
}

impl SerialValue {
    /// The rendered form of this value, as bytes: integers in decimal, null
    /// as `NULL`, text and blobs as their bytes; floats have none here.
    pub fn rendered_bytes(&self) -> (r: Option<Vec<u8>>)
        ensures
            match r {
                Some(b) => rendered(self@) == Some(b@),
                None => rendered(self@) is None,
            },
    {
        match self {
            SerialValue::Null => {
                let null_bytes: Vec<u8> = vec![78u8, 85u8, 76u8, 76u8];
                assert(null_bytes@ =~= seq![78u8, 85u8, 76u8, 76u8]);
                Some(null_bytes)
            },
            SerialValue::Integer(i) => Some(render_integer(*i)),
            SerialValue::Float(_) => None,
            SerialValue::Text(s) => {
                let b = s.as_str().as_bytes();
                Some(copy_range(b, 0, b.len()))
            },
            SerialValue::Blob(b) => Some(copy_range(b.as_slice(), 0, b.len())),
        }
    }

    /// Whether this value renders exactly as `literal`; a float never matches.
    pub fn renders_as_literal(&self, literal: &str) -> (r: bool)
        ensures
            r == renders_as(self@, encode_utf8(literal@)),
    {
        match self.rendered_bytes() {
            Some(b) => bytes_equal(b.as_slice(), literal.as_bytes()),
            None => false,
        }
    }

    /// The rendered form of this value as a string, where it has one and it
    /// is well-formed UTF-8.
    pub fn rendered_string(&self) -> (r: Option<String>)
        ensures
            match r {
                Some(s) => rendered_text(self@) == Some(encode_utf8(s@)),
                None => rendered_text(self@) is None,
            },
    {
        match self.rendered_bytes() {
            Some(b) => string_from_utf8(b),
            None => None,
        }
    }

    /// The value as a row id: a non-negative integer.
    pub fn into_u64(&self) -> (r: Option<u64>)
        ensures
            r == as_row_id(self@),
    {
        match self {
            SerialValue::Integer(i) => {
                if *i >= 0 {
                    Some(*i as u64)
                } else {
                    None
                }
            },
            _ => None,
        }
    }
}

/// A value read as a row id: defined for non-negative integers only.
pub open spec fn as_row_id(v: Value) -> Option<u64> {
    match v {
        Value::Integer(i) => if 0 <= i { Some(i as u64) } else { None },
        _ => None,
    }
}

/// The size of each fixed-width serial type's body, and the length formulas
/// of text and blob bodies.
pub proof fn lemma_serial_sizes(code: nat)
    ensures
        serial_size(0) == 0 && serial_size(1) == 1 && serial_size(2) == 2 && serial_size(3) == 3,
        serial_size(4) == 4 && serial_size(5) == 6 && serial_size(6) == 8 && serial_size(7) == 8,
        serial_size(8) == 0 && serial_size(9) == 0,
        code >= 12 && code % 2 == 0 ==> serial_size(code) == (code - 12) / 2,
        code >= 13 && code % 2 == 1 ==> serial_size(code) == (code - 13) / 2,
{
}

/// A successful decode consumes exactly the body size that the serial type
/// declares, and yields a value of the declared kind.
pub proof fn lemma_serial_value_consumes(data: Seq<u8>, pos: int, code: nat)
    requires
        spec_serial_value(data, pos, code) is Ok,
    ensures
        spec_serial_value(data, pos, code)->Ok_0.1 == pos + serial_size(code),
        kind_matches(code, spec_serial_value(data, pos, code)->Ok_0.0),
{
}

} // verus!
