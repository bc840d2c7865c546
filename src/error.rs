use vstd::prelude::*;

verus! {

/// Everything that can go wrong while decoding a database image.
#[derive(Debug, Clone, Copy, PartialEq, Eq, Structural)]
pub enum DbError {
    /// The bytes end before a field that must be read.
    Truncated,
    /// The file header is shorter than 100 bytes or declares an invalid page size.
    InvalidHeader,
    /// A page's type byte is none of the four known codes.
    UnsupportedPageType,
    /// A reserved serial type (10 or 11) was seen.
    UnsupportedSerialType,
    /// A text value is not well-formed UTF-8.
    InvalidUtf8,
    /// A record header does not end on a varint boundary, or an index cell
    /// has no trailing row id that is a non-negative integer.
    MalformedRecord,
    /// A column name is absent from the table's column list.
    UnresolvedColumn,
    /// A schema entry has no root page where a scan needs one.
    MissingRootPage,
    /// A cell pointer lies outside the page's cell area.
    CellOutOfPage,
    /// A page number is 0 or lies past the end of the file.
    PageOutOfRange,
    /// A table walk reached an index page.
    UnexpectedIndexPage,
    /// A table walk visited more pages than the file holds.
    CyclicTree,
}

} // verus!

verus! {

/// `front` put before the sequence that `r` holds, or the error of `r`.
pub open spec fn prepend<T>(front: Seq<T>, r: Result<Seq<T>, DbError>) -> Result<Seq<T>, DbError> {
    match r {
        Ok(s) => Ok(front + s),
        Err(e) => Err(e),
    }
}

} // verus!
