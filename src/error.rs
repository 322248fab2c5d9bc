use vstd::prelude::*;

verus! {

/// The operation that failed.
#[derive(Clone, Copy, Debug, PartialEq, Eq, Structural)]
pub enum ErrorKind {
    Save,
    Load,
    Delete,
    Index,
}

impl ErrorKind {
    /// The word used for this kind in messages.
    pub fn name(&self) -> (r: &'static str)
        ensures
            *self == ErrorKind::Save ==> r@ == "save"@,
            *self == ErrorKind::Load ==> r@ == "load"@,
            *self == ErrorKind::Delete ==> r@ == "delete"@,
            *self == ErrorKind::Index ==> r@ == "index"@,
    {
        proof {
            reveal_strlit("save");
            reveal_strlit("load");
            reveal_strlit("delete");
            reveal_strlit("index");
        }
        match self {
            ErrorKind::Save => "save",
            ErrorKind::Load => "load",
            ErrorKind::Delete => "delete",
            ErrorKind::Index => "index",
        }
    }
}

/// Local wall-clock time of day.
#[derive(Clone, Copy, Debug, PartialEq, Eq, Structural)]
pub struct TimeOfDay {
    pub hour: u32,
    pub minute: u32,
    pub second: u32,
}

impl TimeOfDay {
    pub open spec fn valid(self) -> bool {
        self.hour < 24 && self.minute < 60 && self.second < 60
    }
}

/// Relies on chrono::Local::now for the current local time, and on chrono's
/// Timelike::hour, minute and second: hour in 0..=23, minute and second in 0..=59.
#[verifier::external_body]
fn local_time_of_day() -> (r: TimeOfDay)
    ensures
        r.valid(),
{
    let now = chrono::Local::now();
    TimeOfDay {
        hour: chrono::Timelike::hour(&now),
        minute: chrono::Timelike::minute(&now),
        second: chrono::Timelike::second(&now),
    }
}

/// An error of the database: what kind of operation failed, why, and when.
#[derive(Clone, Debug)]
pub struct DBError {
    pub kind: ErrorKind,
    pub cause: String,
    pub when: TimeOfDay,
}

impl DBError {
    fn new(kind: ErrorKind, cause: &str) -> (r: Self)
        ensures
            r.kind == kind,
            r.cause@ == cause@,
            r.when.valid(),
    {
        DBError { kind, cause: cause.to_owned(), when: local_time_of_day() }
    }

    /// A failure to encode or write a value.
    pub fn save(cause: &str) -> (r: Self)
        ensures
            r.kind == ErrorKind::Save,
            r.cause@ == cause@,
            r.when.valid(),
    {
        Self::new(ErrorKind::Save, cause)
    }

    /// A failure to read or decode a value.
    pub fn load(cause: &str) -> (r: Self)
        ensures
            r.kind == ErrorKind::Load,
            r.cause@ == cause@,
            r.when.valid(),
    {
        Self::new(ErrorKind::Load, cause)
    }

    /// A failure to remove a stored blob.
    pub fn delete(cause: &str) -> (r: Self)
        ensures
            r.kind == ErrorKind::Delete,
            r.cause@ == cause@,
            r.when.valid(),
    {
        Self::new(ErrorKind::Delete, cause)
    }

    /// Misuse of the secondary index: an empty key, or a key without a record.
    pub fn index(cause: &str) -> (r: Self)
        ensures
            r.kind == ErrorKind::Index,
            r.cause@ == cause@,
            r.when.valid(),
    {
        Self::new(ErrorKind::Index, cause)
    }

    pub fn kind(&self) -> (r: ErrorKind)
        ensures
            r == self.kind,
    {
        self.kind
    }

    pub fn cause(&self) -> (r: &str)
        ensures
            r@ == self.cause@,
    {
        self.cause.as_str()
    }
}

} // verus!
