//! The error the rendering path surfaces to its caller: losing the surface
//! (or any backend allocation failure) is fatal for the current frame and
//! carried outward with the backend's message; the caller reconfigures and
//! retries. Nothing inside batching, allocation or packing itself can fail.

use vstd::prelude::*;

verus! {

/// A frame-fatal error, carrying a backend-specific message.
#[derive(Debug)]
pub enum AnuraError<T> {
    FatalError { msg: T },
}

impl<T> AnuraError<T> {
    /// Wraps a backend message as a fatal error.
    pub fn fatal(msg: T) -> (r: AnuraError<T>)
        ensures
            r == (AnuraError::FatalError { msg }),
    {
        AnuraError::FatalError { msg }
    }

    /// The backend message carried by the error.
    pub fn into_message(self) -> (r: T)
        ensures
            self == (AnuraError::FatalError { msg: r }),
    {
        match self {
            AnuraError::FatalError { msg } => msg,
        }
    }
}

} // verus!
