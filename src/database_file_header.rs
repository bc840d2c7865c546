use vstd::prelude::*;

use crate::error::DbError;
use crate::reader::{be_value, lemma_be_value_fits, read_be};

verus! {

/// Size of the file header at the start of the file.
pub const DATABASE_FILE_HEADER_SIZE: usize = 100;

/// The page sizes that the format allows: powers of two from 512 to 32768.
pub open spec fn valid_page_size(n: nat) -> bool {
    n == 512 || n == 1024 || n == 2048 || n == 4096 || n == 8192 || n == 16384 || n == 32768
}

/// The page size that a file header declares, in big-endian bytes 16 and 17.
pub open spec fn spec_header_page_size(buf: Seq<u8>) -> Result<u16, DbError> {
    if buf.len() < DATABASE_FILE_HEADER_SIZE {
        Err(DbError::InvalidHeader)
    } else if !valid_page_size(be_value(buf.subrange(16, 18))) {
        Err(DbError::InvalidHeader)
    } else {
        Ok(be_value(buf.subrange(16, 18)) as u16)
    }
}

#[derive(Debug, Clone, Copy, PartialEq, Eq, Structural)]
pub struct DatabaseFileHeader {
    pub page_size: u16,
}

impl DatabaseFileHeader {
    /// Reads the file header at the start of `buf` and checks its page size.
    pub fn from_bytes(buf: &[u8]) -> (r: Result<DatabaseFileHeader, DbError>)
        ensures
            match r {
                Ok(h) => spec_header_page_size(buf@) == Ok::<u16, DbError>(h.page_size),
                Err(e) => spec_header_page_size(buf@) == Err::<u16, DbError>(e),
            },
    {
        if buf.len() < DATABASE_FILE_HEADER_SIZE {
            return Err(DbError::InvalidHeader);
        }
        let (v, _) = match read_be(buf, 16, 2) {
            Ok(x) => x,
            Err(e) => return Err(e),
        };
        proof {
            lemma_be_value_fits(buf@.subrange(16, 18));
        }
        if v == 512 || v == 1024 || v == 2048 || v == 4096 || v == 8192 || v == 16384 || v == 32768 {
            Ok(DatabaseFileHeader { page_size: v as u16 })
        } else {
            Err(DbError::InvalidHeader)
        }
    }
}

} // verus!
