//! The error carried through the handlers: a response code and a message.
use vstd::prelude::*;

verus! {

/// A failure reported to the caller, ready to become an API response.
#[derive(Debug, Hash, PartialEq, Eq, PartialOrd, Ord)]
pub struct CommonError {
    pub code: u32,
    pub message: String,
}

impl Default for CommonError {
    fn default() -> (r: Self)
        ensures
            r.code == 0,
            r.message@ == Seq::<char>::empty(),
    {
        CommonError { code: 0, message: String::new() }
    }
}

} // verus!
