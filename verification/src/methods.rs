//! The closed set of HTTP methods the router handles.

use vstd::prelude::*;

verus! {

/// HTTP method enum. Requests with any other method are treated as not-found.
#[derive(Clone, Copy, PartialEq, Eq, Structural, Debug)]
pub enum Methods {
    GET,
    POST,
    PUT,
    PATCH,
    DELETE,
}

impl Methods {
    /// Which method, if any, a literal method string denotes.
    pub open spec fn spec_from_str(s: Seq<char>) -> Option<Methods> {
        if s == "GET"@ {
            Some(Methods::GET)
        } else if s == "POST"@ {
            Some(Methods::POST)
        } else if s == "PUT"@ {
            Some(Methods::PUT)
        } else if s == "PATCH"@ {
            Some(Methods::PATCH)
        } else if s == "DELETE"@ {
            Some(Methods::DELETE)
        } else {
            None
        }
    }

    pub fn convert_from_str(method: &str) -> (r: Option<Methods>)
        ensures
            r == Methods::spec_from_str(method@),
    {
        if crate::strutil::str_eq(method, "GET") {
            Some(Methods::GET)
        } else if crate::strutil::str_eq(method, "POST") {
            Some(Methods::POST)
        } else if crate::strutil::str_eq(method, "PUT") {
            Some(Methods::PUT)
        } else if crate::strutil::str_eq(method, "PATCH") {
            Some(Methods::PATCH)
        } else if crate::strutil::str_eq(method, "DELETE") {
            Some(Methods::DELETE)
        } else {
            None
        }
    }
}

} // verus!
