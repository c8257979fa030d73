//! The closed set of failures the simulation can report.

use vstd::prelude::*;

verus! {

/// What went wrong in a handler call.
#[derive(Debug, Clone, PartialEq, Eq)]
pub enum Error {
    /// An identifier is absent from the table it was looked up in.
    NotFound,
    /// A required input was not supplied.
    MissingInput(String),
    /// The shape or contents of the data handed in are not acceptable.
    InvalidData(String),
    /// A geometry was expected and none was there.
    MissingGeometry,
    /// A geometry is malformed.
    InvalidGeometry(String),
    /// An invariant of the world state is broken; the run cannot go on.
    InternalError(String),
    /// Bytes or text that should hold an identifier do not.
    InvalidUuid,
    /// Text that should hold a location does not.
    InvalidUrl,
    /// A collaborator outside this library failed.
    External(String),
}

impl Error {
    /// An `InvalidData` error that carries `message`.
    pub fn invalid_data(message: &str) -> (e: Error)
        ensures
            e matches Error::InvalidData(m) && m@ == message@,
    {
        Error::InvalidData(message.to_owned())
    }

    /// An `InvalidGeometry` error that carries `message`.
    pub fn invalid_geometry(message: &str) -> (e: Error)
        ensures
            e matches Error::InvalidGeometry(m) && m@ == message@,
    {
        Error::InvalidGeometry(message.to_owned())
    }

    /// An `InternalError` that carries `message`.
    pub fn internal(message: &str) -> (e: Error)
        ensures
            e matches Error::InternalError(m) && m@ == message@,
    {
        Error::InternalError(message.to_owned())
    }

    /// An `External` error that carries `message`.
    pub fn generic(message: &str) -> (e: Error)
        ensures
            e matches Error::External(m) && m@ == message@,
    {
        Error::External(message.to_owned())
    }

    /// The fixed headline of each kind of error.
    pub open spec fn spec_label(self) -> Seq<char> {
        match self {
            Error::NotFound => "Not found"@,
            Error::MissingInput(_) => "Missing input"@,
            Error::InvalidData(_) => "Invalid data"@,
            Error::MissingGeometry => "Missing geometry"@,
            Error::InvalidGeometry(_) => "Invalid geometry"@,
            Error::InternalError(_) => "Internal error"@,
            Error::InvalidUuid => "Invalid uuid"@,
            Error::InvalidUrl => "Invalid url"@,
            Error::External(_) => "Generic error"@,
        }
    }

    /// The headline of the error, without its detail.
    pub fn label(&self) -> (s: &'static str)
        ensures
            s@ == self.spec_label(),
    {
        match self {
            Error::NotFound => "Not found",
            Error::MissingInput(_) => "Missing input",
            Error::InvalidData(_) => "Invalid data",
            Error::MissingGeometry => "Missing geometry",
            Error::InvalidGeometry(_) => "Invalid geometry",
            Error::InternalError(_) => "Internal error",
            Error::InvalidUuid => "Invalid uuid",
            Error::InvalidUrl => "Invalid url",
            Error::External(_) => "Generic error",
        }
    }

    /// Whether the error ends the run rather than the tick.
    pub open spec fn spec_is_fatal(self) -> bool {
        self is InternalError
    }

    /// Whether the error ends the run rather than the tick.
    pub fn is_fatal(&self) -> (b: bool)
        ensures
            b == self.spec_is_fatal(),
    {
        match self {
            Error::InternalError(_) => true,
            _ => false,
        }
    }
}

} // verus!
