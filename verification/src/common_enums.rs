//! The HTTP methods the handlers accept.
use vstd::prelude::*;

verus! {

/// An accepted HTTP method.
#[derive(Clone, Copy, Debug, Hash, PartialEq, Eq, PartialOrd, Ord)]
pub enum Method {
    Post,
    Put,
    Get,
    Delete,
}

} // verus!
