//! The statuses that the server answers with.

use vstd::prelude::*;

verus! {

/// The status of a response.
#[derive(Clone, Copy, PartialEq, Eq, Debug, Structural)]
pub enum HttpStatus {
    OK,
    NotFound,
    InternalServerError,
}

/// The code and reason of a status, as they stand in a status line.
pub open spec fn status_text(status: HttpStatus) -> Seq<char> {
    match status {
        HttpStatus::OK => "200 OK"@,
        HttpStatus::NotFound => "404 Not Found"@,
        HttpStatus::InternalServerError => "500 Internal Server Error"@,
    }
}

impl HttpStatus {
    /// The code and reason of the status: `"200 OK"`, `"404 Not Found"` or
    /// `"500 Internal Server Error"`.
    pub fn to_string(&self) -> (text: String)
        ensures
            text@ == status_text(*self),
    {
        match self {
            HttpStatus::OK => "200 OK".to_owned(),
            HttpStatus::NotFound => "404 Not Found".to_owned(),
            HttpStatus::InternalServerError => "500 Internal Server Error".to_owned(),
        }
    }
}

} // verus!
