//! Errors of the storage layer: a kind and a message.
use vstd::prelude::*;

verus! {

/// What went wrong.
#[derive(Clone, Copy, Debug, PartialEq, Eq, Structural)]
pub enum DbErrorKind {
    /// The caller named something that cannot exist (an invalid page identifier).
    InvalidInput,
    /// The state or the stored bytes do not permit the request.
    InvalidData,
    /// The thing asked for is not there.
    NotFound,
    /// The thing to be created is there already.
    AlreadyExists,
    /// A write made no progress.
    WriteZero,
    /// A read reached the end of the file early.
    UnexpectedEof,
    /// Any other failure of the operating system.
    Other,
}

/// An error: its kind and a message for people.
#[derive(Debug)]
pub struct DbError {
    pub kind: DbErrorKind,
    pub message: String,
}

impl DbError {
    pub fn new(kind: DbErrorKind, message: &str) -> (r: DbError)
        ensures
            r.kind == kind,
            r.message@ == message@,
    {
        DbError { kind, message: message.to_owned() }
    }

    pub fn kind(&self) -> (r: DbErrorKind)
        ensures
            r == self.kind,
    {
        self.kind
    }
}

/// `r` failed with an error of kind `k`.
pub open spec fn fails_with<T>(r: Result<T, DbError>, k: DbErrorKind) -> bool {
    match r {
        Err(e) => e.kind == k,
        Ok(_) => false,
    }
}

pub fn already_exists(message: &str) -> (r: DbError)
    ensures
        r.kind == DbErrorKind::AlreadyExists,
        r.message@ == message@,
{
    DbError::new(DbErrorKind::AlreadyExists, message)
}

pub fn invalid_data(message: &str) -> (r: DbError)
    ensures
        r.kind == DbErrorKind::InvalidData,
        r.message@ == message@,
{
    DbError::new(DbErrorKind::InvalidData, message)
}

pub fn invalid_input(message: &str) -> (r: DbError)
    ensures
        r.kind == DbErrorKind::InvalidInput,
        r.message@ == message@,
{
    DbError::new(DbErrorKind::InvalidInput, message)
}

pub fn not_found(message: &str) -> (r: DbError)
    ensures
        r.kind == DbErrorKind::NotFound,
        r.message@ == message@,
{
    DbError::new(DbErrorKind::NotFound, message)
}

} // verus!
