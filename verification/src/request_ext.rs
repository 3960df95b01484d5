//! The HTTP verbs that request and response printers name.

use vstd::prelude::*;

verus! {

/// An HTTP request method.
pub enum HttpMethod {
    GET,
    PUT,
    DELETE,
    POST,
}

/// The canonical upper-case text of a method.
pub open spec fn method_text(m: HttpMethod) -> Seq<char> {
    match m {
        HttpMethod::GET => "GET"@,
        HttpMethod::POST => "POST"@,
        HttpMethod::PUT => "PUT"@,
        HttpMethod::DELETE => "DELETE"@,
    }
}

impl HttpMethod {
    pub fn as_str(&self) -> (r: &'static str)
        ensures
            r@ == method_text(*self),
    {
        match self {
            HttpMethod::GET => "GET",
            HttpMethod::POST => "POST",
            HttpMethod::PUT => "PUT",
            HttpMethod::DELETE => "DELETE",
        }
    }

    pub fn to_string(&self) -> (r: String)
        ensures
            r@ == method_text(*self),
    {
        self.as_str().to_owned()
    }
}

} // verus!
