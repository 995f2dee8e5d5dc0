//! The error taxonomy shared by every fallible operation of the crate.

use vstd::prelude::*;

verus! {

/// The filesystem error categories that the tracker distinguishes.
/// Callers outside the library translate the platform's I/O errors
/// into this type before handing results to the library.
#[derive(Clone, Copy, Debug, PartialEq, Eq, Structural)]
pub enum IoErrorKind {
    NotFound,
    PermissionDenied,
    AlreadyExists,
    InvalidInput,
    Other,
}

/// A failure of a tracker operation.
///
/// `Io` wraps a filesystem error category; `InvalidData` is a parse,
/// decode or validation failure with an optional message;
/// `InvalidPeriod` reports a date range whose start lies after its end;
/// `ActiveSheetNotSelected` reports an operation that needs an active
/// sheet when none is selected.
#[derive(Debug)]
pub enum BtrError {
    Io(IoErrorKind),
    InvalidData(Option<String>),
    InvalidPeriod(String),
    ActiveSheetNotSelected,
}

/// The shape of a `BtrError` with its message stripped, for comparing
/// failure categories.
#[derive(Clone, Copy, Debug, PartialEq, Eq, Structural)]
pub enum BtrErrorKind {
    Io(IoErrorKind),
    InvalidData,
    InvalidPeriod,
    ActiveSheetNotSelected,
}

/// The kind that `BtrError::kind` returns for each error value.
pub open spec fn spec_kind(e: BtrError) -> BtrErrorKind {
    match e {
        BtrError::Io(k) => BtrErrorKind::Io(k),
        BtrError::InvalidData(_) => BtrErrorKind::InvalidData,
        BtrError::InvalidPeriod(_) => BtrErrorKind::InvalidPeriod,
        BtrError::ActiveSheetNotSelected => BtrErrorKind::ActiveSheetNotSelected,
    }
}

impl BtrError {
    /// The category of this error, with any message stripped.
    pub fn kind(&self) -> (k: BtrErrorKind)
        ensures
            k == spec_kind(*self),
    {
        match self {
            BtrError::Io(e) => BtrErrorKind::Io(*e),
            BtrError::InvalidData(_) => BtrErrorKind::InvalidData,
            BtrError::InvalidPeriod(_) => BtrErrorKind::InvalidPeriod,
            BtrError::ActiveSheetNotSelected => BtrErrorKind::ActiveSheetNotSelected,
        }
    }
}


/// The words of a filesystem error category.
pub open spec fn io_kind_text(k: IoErrorKind) -> Seq<char> {
    match k {
        IoErrorKind::NotFound => "not found"@,
        IoErrorKind::PermissionDenied => "permission denied"@,
        IoErrorKind::AlreadyExists => "already exists"@,
        IoErrorKind::InvalidInput => "invalid input"@,
        IoErrorKind::Other => "other error"@,
    }
}

/// The words an error is reported with.
pub open spec fn message_spec(e: BtrError) -> Seq<char> {
    match e {
        BtrError::Io(k) => "IO error: "@ + io_kind_text(k),
        BtrError::InvalidData(None) => "Invalid data"@,
        BtrError::InvalidData(Some(m)) => "Invalid data: "@ + m@,
        BtrError::InvalidPeriod(m) => "Invalid period: "@ + m@,
        BtrError::ActiveSheetNotSelected => "No active sheet is selected"@,
    }
}

impl BtrError {
    /// The words this error is reported with.
    pub fn message(&self) -> (r: String)
        ensures
            r@ == message_spec(*self),
    {
        let mut s = String::new();
        match self {
            BtrError::Io(k) => {
                s.append("IO error: ");
                match k {
                    IoErrorKind::NotFound => s.append("not found"),
                    IoErrorKind::PermissionDenied => s.append("permission denied"),
                    IoErrorKind::AlreadyExists => s.append("already exists"),
                    IoErrorKind::InvalidInput => s.append("invalid input"),
                    IoErrorKind::Other => s.append("other error"),
                }
            },
            BtrError::InvalidData(None) => {
                s.append("Invalid data");
            },
            BtrError::InvalidData(Some(m)) => {
                s.append("Invalid data: ");
                s.append(m.as_str());
            },
            BtrError::InvalidPeriod(m) => {
                s.append("Invalid period: ");
                s.append(m.as_str());
            },
            BtrError::ActiveSheetNotSelected => {
                s.append("No active sheet is selected");
            },
        }
        proof {
            assert(s@ =~= message_spec(*self));
        }
        s
    }
}

} // verus!
