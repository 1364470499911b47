use vstd::prelude::*;

verus! {

/// Errors of the page-format layer: decoding fixed layouts, classifying
/// pages and extracting their elements.
#[derive(Debug, Clone, PartialEq, Eq)]
pub enum Error {
    /// A decoder received fewer bytes than its fixed layout requires.
    TooSmallData { expect: usize, got: usize },
    /// A key/value extraction was asked of a leaf element that is a bucket.
    UnexpectBucketLeaf,
    /// The stored meta checksum differs from the computed one.
    InvalidPageChecksum { expect: u64, got: u64, id: u64 },
    /// The stored meta magic differs from the expected marker.
    InvalidPageMagic { expect: u32, got: u32, id: u64 },
    /// The stored meta version differs from the supported one.
    InvalidPageVersion { expect: u32, got: u32, id: u64 },
    /// A structural check failed after basic decoding.
    InvalidData(&'static str),
}

/// Errors of the database layer, a superset of the page-format errors.
///
/// `FileNotFound` and `IOError` are constructed by callers that read the
/// database file from disk before handing its bytes to the library.
#[derive(Debug, Clone, PartialEq, Eq)]
pub enum DatabaseError {
    TooSmallData { expect: usize, got: usize },
    UnexpectBucketLeaf,
    InvalidPageChecksum { expect: u64, got: u64, id: u64 },
    InvalidPageMagic { expect: u32, got: u32, id: u64 },
    InvalidPageVersion { expect: u32, got: u32, id: u64 },
    InvalidData(&'static str),
    FileNotFound(String),
    IOError(String, String),
    InvalidPageType { expect: u16, got: u16, id: u64 },
    /// Neither of the first two pages holds a valid meta record.
    InvalidMeta,
}

/// The database-layer form of a page-format error, variant for variant.
pub open spec fn spec_db_error(e: Error) -> DatabaseError {
    match e {
        Error::TooSmallData { expect, got } => DatabaseError::TooSmallData { expect, got },
        Error::UnexpectBucketLeaf => DatabaseError::UnexpectBucketLeaf,
        Error::InvalidPageChecksum { expect, got, id } => DatabaseError::InvalidPageChecksum {
            expect,
            got,
            id,
        },
        Error::InvalidPageMagic { expect, got, id } => DatabaseError::InvalidPageMagic {
            expect,
            got,
            id,
        },
        Error::InvalidPageVersion { expect, got, id } => DatabaseError::InvalidPageVersion {
            expect,
            got,
            id,
        },
        Error::InvalidData(reason) => DatabaseError::InvalidData(reason),
    }
}

impl Error {
    /// Lifts this page-format error into the database layer.
    pub fn into_database_error(self) -> (r: DatabaseError)
        ensures
            r == spec_db_error(self),
    {
        match self {
            Error::TooSmallData { expect, got } => DatabaseError::TooSmallData { expect, got },
            Error::UnexpectBucketLeaf => DatabaseError::UnexpectBucketLeaf,
            Error::InvalidPageChecksum { expect, got, id } => DatabaseError::InvalidPageChecksum {
                expect,
                got,
                id,
            },
            Error::InvalidPageMagic { expect, got, id } => DatabaseError::InvalidPageMagic {
                expect,
                got,
                id,
            },
            Error::InvalidPageVersion { expect, got, id } => DatabaseError::InvalidPageVersion {
                expect,
                got,
                id,
            },
            Error::InvalidData(reason) => DatabaseError::InvalidData(reason),
        }
    }
}

} // verus!
