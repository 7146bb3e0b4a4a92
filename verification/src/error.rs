//! The failures this library reports, and how a gRPC status is read into them.

use google_cloud_gax::grpc::Status;
use vstd::prelude::*;

verus! {

/// The status of a gRPC call, as `tonic` defines it and
/// `google_cloud_gax::grpc` hands it on. It is carried as it is: nothing is
/// known of what it holds.
#[verifier::external_type_specification]
#[verifier::external_body]
pub struct ExStatus(google_cloud_gax::grpc::Status);

/// What a transport reported about a failed call: the gRPC status code and
/// the text that came with it.
#[derive(Debug, PartialEq, Eq)]
pub struct Fault {
    pub code: i32,
    pub message: String,
}

/// Mathematical value of a [`Fault`].
pub struct FaultView {
    pub code: int,
    pub message: Seq<char>,
}

impl View for Fault {
    type V = FaultView;

    open spec fn view(&self) -> FaultView {
        FaultView { code: self.code as int, message: self.message@ }
    }
}

/// Status code a broker answers when the resource to create is already there.
pub const CODE_ALREADY_EXISTS: i32 = 6;

/// Status code a broker answers when the named resource is missing.
pub const CODE_NOT_FOUND: i32 = 5;

/// Status code of a call that was given up, as a call on something that has
/// been shut down is.
pub const CODE_CANCELLED: i32 = 1;

/// Status code a broker answers when it has run out of something.
pub const CODE_RESOURCE_EXHAUSTED: i32 = 8;

/// Reads the code of `status` with `Status::code` and gives it as the number
/// that the enum `Code` assigns to it. `Code` has seventeen variants,
/// numbered 0 to 16; that the number lies in this range is all that is
/// claimed.
#[verifier::external_body]
fn status_code(status: &Status) -> (code: i32)
    ensures
        0 <= code <= 16,
{
    status.code() as i32
}

/// Copies the text of `status` as `tonic::Status::message` returns it.
/// Nothing is claimed about the text.
#[verifier::external_body]
fn status_message(status: &Status) -> (message: String) {
    status.message().to_string()
}

impl Fault {
    /// Reads code and message out of a gRPC status.
    pub fn from_status(status: &Status) -> (fault: Fault)
        ensures
            0 <= fault.code <= 16,
    {
        Fault { code: status_code(status), message: status_message(status) }
    }

    /// A second copy of the same fault.
    pub fn duplicate(&self) -> (copy: Fault)
        ensures
            copy == *self,
    {
        Fault { code: self.code, message: self.message.clone() }
    }
}

/// Everything that can go wrong in this library.
///
/// Cancellation is not among them: a receive loop that stops because its
/// token fired ends normally.
#[derive(Debug, PartialEq, Eq)]
pub enum Error {
    /// The transport failed (network, authentication). Whether to try again
    /// is for the caller to decide.
    Transport(Fault),
    /// The resource to create is already there.
    AlreadyExists,
    /// The named resource is missing.
    NotFound,
    /// The operation was attempted after shutdown.
    Closed,
    /// One message could not be published; carried in that message's result.
    PublishFailed(Fault),
}

/// Mathematical value of an [`Error`].
pub enum ErrorView {
    Transport(FaultView),
    AlreadyExists,
    NotFound,
    Closed,
    PublishFailed(FaultView),
}

impl View for Error {
    type V = ErrorView;

    open spec fn view(&self) -> ErrorView {
        match self {
            Error::Transport(f) => ErrorView::Transport(f@),
            Error::AlreadyExists => ErrorView::AlreadyExists,
            Error::NotFound => ErrorView::NotFound,
            Error::Closed => ErrorView::Closed,
            Error::PublishFailed(f) => ErrorView::PublishFailed(f@),
        }
    }
}

impl ErrorView {
    /// The fault under which a transport reports this error: the fault it
    /// carries if it carries one, else its status code without a text.
    pub open spec fn fault(self) -> FaultView {
        match self {
            ErrorView::Transport(fault) => fault,
            ErrorView::PublishFailed(fault) => fault,
            ErrorView::AlreadyExists => FaultView {
                code: CODE_ALREADY_EXISTS as int,
                message: Seq::empty(),
            },
            ErrorView::NotFound => FaultView { code: CODE_NOT_FOUND as int, message: Seq::empty() },
            ErrorView::Closed => FaultView { code: CODE_CANCELLED as int, message: Seq::empty() },
        }
    }
}

/// The error a fault stands for: the two resource codes become their own
/// variants, every other code is a transport failure that keeps the fault.
pub open spec fn classify(fault: FaultView) -> ErrorView {
    if fault.code == CODE_ALREADY_EXISTS {
        ErrorView::AlreadyExists
    } else if fault.code == CODE_NOT_FOUND {
        ErrorView::NotFound
    } else {
        ErrorView::Transport(fault)
    }
}

impl Error {
    /// Sorts a fault into the taxonomy.
    pub fn classify(fault: Fault) -> (error: Error)
        ensures
            error@ == classify(fault@),
    {
        if fault.code == CODE_ALREADY_EXISTS {
            Error::AlreadyExists
        } else if fault.code == CODE_NOT_FOUND {
            Error::NotFound
        } else {
            Error::Transport(fault)
        }
    }

    /// Reads a gRPC status into the taxonomy. The result is the
    /// classification of some fault with a code between 0 and 16; which one
    /// is decided by the status.
    pub fn from_status(status: &Status) -> (error: Error)
        ensures
            exists|fault: FaultView| 0 <= fault.code <= 16 && error@ == classify(fault),
    {
        let fault = Fault::from_status(status);
        proof {
            let witness = fault@;
            assert(0 <= witness.code <= 16);
        }
        Error::classify(fault)
    }

    /// The fault under which a transport reports this error.
    pub fn fault(self) -> (fault: Fault)
        ensures
            fault@ == self@.fault(),
    {
        match self {
            Error::Transport(fault) => fault,
            Error::PublishFailed(fault) => fault,
            Error::AlreadyExists => Fault { code: CODE_ALREADY_EXISTS, message: String::new() },
            Error::NotFound => Fault { code: CODE_NOT_FOUND, message: String::new() },
            Error::Closed => Fault { code: CODE_CANCELLED, message: String::new() },
        }
    }

    /// A second copy of the same error.
    pub fn duplicate(&self) -> (copy: Error)
        ensures
            copy == *self,
    {
        match self {
            Error::Transport(f) => Error::Transport(f.duplicate()),
            Error::AlreadyExists => Error::AlreadyExists,
            Error::NotFound => Error::NotFound,
            Error::Closed => Error::Closed,
            Error::PublishFailed(f) => Error::PublishFailed(f.duplicate()),
        }
    }

    /// Whether this is the answer to creating what is already there.
    pub fn is_already_exists(&self) -> (b: bool)
        ensures
            b == (self@ is AlreadyExists),
    {
        match self {
            Error::AlreadyExists => true,
            _ => false,
        }
    }
}

/// Sorting a fault and reading the error back as a fault gives the fault
/// again, but for the text of the two resource codes.
pub proof fn law_classify_keeps_the_code(fault: FaultView)
    ensures
        classify(fault).fault().code == fault.code,
        classify(fault) is Transport ==> classify(fault).fault() == fault,
{
}

/// Mathematical value of a publish outcome: the broker-assigned identifier
/// or the error.
pub open spec fn outcome_view(outcome: Result<String, Error>) -> Result<Seq<char>, ErrorView> {
    match outcome {
        Ok(id) => Ok(id@),
        Err(e) => Err(e@),
    }
}

} // verus!
