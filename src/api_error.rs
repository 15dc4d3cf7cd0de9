use vstd::prelude::*;

use crate::display::DisplayKind;
use crate::frames::{DisplayFrames, FrameReceiver};

verus! {

/// An error of the HTTP surface.
#[derive(Debug, Clone, PartialEq, Eq)]
pub enum Error {
    /// The layout has no display of the requested kind.
    DisplayNotFound,
    /// Something failed on the server's side.
    Internal(String),
    /// The request was malformed.
    Request(String),
}

/// The HTTP status that answers an error.
pub open spec fn status_of(e: Error) -> u16 {
    match e {
        Error::DisplayNotFound => 404,
        Error::Internal(_) => 500,
        Error::Request(_) => 400,
    }
}

impl Error {
    pub fn status_code(&self) -> (r: u16)
        ensures
            r == status_of(*self),
    {
        match self {
            Error::DisplayNotFound => 404,
            Error::Internal(_) => 500,
            Error::Request(_) => 400,
        }
    }
}

/// The first step of a display stream request: a receiver for the kind, or
/// `DisplayNotFound` when the layout has no such display.
pub fn mfd_receiver<F>(frames: &DisplayFrames<F>, kind: DisplayKind) -> (r: Result<
    FrameReceiver,
    Error,
>)
    requires
        frames.wf(),
    ensures
        frames.slot(kind) is None <==> r is Err,
        r is Err ==> r == Err::<FrameReceiver, Error>(Error::DisplayNotFound),
        r is Ok ==> {
            let rec = r->Ok_0;
            &&& rec.kind() == kind
            &&& rec.spec_display() == frames.slot(kind).unwrap().display
            &&& frames.is_live(rec)
        },
{
    match frames.receiver(&kind) {
        Some(r) => Ok(r),
        None => Err(Error::DisplayNotFound),
    }
}

} // verus!
