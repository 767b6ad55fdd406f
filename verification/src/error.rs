use vstd::prelude::*;

verus! {

/// The failure classes that the library reports.
///
/// `ProcessorError` covers failures raised by a processor's own work,
/// `LogicalError` marks a broken scheduler invariant (always a defect),
/// and `Cancelled` marks work abandoned after a cancellation request.
/// The remaining kinds classify rejected metadata input.
#[derive(Clone, Copy, Debug, PartialEq, Eq, Structural)]
pub enum ErrorKind {
    ProcessorError,
    LogicalError,
    Cancelled,
    IllegalFileFormat,
    InvalidArgument,
    BadArguments,
    TableOptionInvalid,
}

/// The mathematical content of an [`ErrorCode`]: its kind and its message text.
pub struct ErrorCodeView {
    pub kind: ErrorKind,
    pub msg: Seq<char>,
}

/// An error value carrying a failure class and a human-readable message.
#[derive(Clone, Debug)]
pub struct ErrorCode {
    kind: ErrorKind,
    message: String,
}

impl View for ErrorCode {
    type V = ErrorCodeView;

    closed spec fn view(&self) -> ErrorCodeView {
        ErrorCodeView { kind: self.kind, msg: self.message@ }
    }
}

impl ErrorCode {
    pub fn new(kind: ErrorKind, message: String) -> (r: ErrorCode)
        ensures
            r@.kind == kind,
            r@.msg == message@,
    {
        ErrorCode { kind, message }
    }

    pub fn kind(&self) -> (r: ErrorKind)
        ensures
            r == self@.kind,
    {
        self.kind
    }

    /// An owned copy with the same kind and message.
    pub fn duplicate(&self) -> (r: ErrorCode)
        ensures
            r@.kind == self@.kind,
            r@.msg == self@.msg,
    {
        ErrorCode { kind: self.kind, message: self.message.clone() }
    }

    pub fn message(&self) -> (r: &String)
        ensures
            r@ == self@.msg,
    {
        &self.message
    }
}

} // verus!
