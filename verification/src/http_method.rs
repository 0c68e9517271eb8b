//! The request methods that the server tells apart.

use crate::text::str_eq;
use std::str::FromStr;
use vstd::prelude::*;

verus! {

/// An HTTP request method. `Unknown` stands for a method token that is none
/// of the four and is never the method of a registered route.
#[derive(Clone, Copy, PartialEq, Eq, Debug, Structural)]
pub enum HttpMethod {
    GET,
    POST,
    PUT,
    DELETE,
    Unknown,
}

/// The text by which a method is written.
pub open spec fn method_text(method: HttpMethod) -> Seq<char> {
    match method {
        HttpMethod::GET => "GET"@,
        HttpMethod::POST => "POST"@,
        HttpMethod::PUT => "PUT"@,
        HttpMethod::DELETE => "DELETE"@,
        HttpMethod::Unknown => "UNKNOWN"@,
    }
}

/// The method that a token names, if it names one. Tokens are told apart to
/// the letter, upper case only.
pub open spec fn method_of_token(token: Seq<char>) -> Option<HttpMethod> {
    if token == "GET"@ {
        Some(HttpMethod::GET)
    } else if token == "POST"@ {
        Some(HttpMethod::POST)
    } else if token == "PUT"@ {
        Some(HttpMethod::PUT)
    } else if token == "DELETE"@ {
        Some(HttpMethod::DELETE)
    } else {
        None
    }
}

/// The method that a token names, `Unknown` where it names none.
pub open spec fn method_or_unknown(token: Seq<char>) -> HttpMethod {
    match method_of_token(token) {
        Some(method) => method,
        None => HttpMethod::Unknown,
    }
}

impl HttpMethod {
    /// The text of the method: `"GET"`, `"POST"`, `"PUT"`, `"DELETE"` or
    /// `"UNKNOWN"`.
    pub fn to_string(&self) -> (text: String)
        ensures
            text@ == method_text(*self),
    {
        match self {
            HttpMethod::GET => "GET".to_owned(),
            HttpMethod::POST => "POST".to_owned(),
            HttpMethod::PUT => "PUT".to_owned(),
            HttpMethod::DELETE => "DELETE".to_owned(),
            HttpMethod::Unknown => "UNKNOWN".to_owned(),
        }
    }

    /// Reads a method token, giving `Unknown` for a token that names no
    /// method.
    pub fn from_token(s: &str) -> (method: HttpMethod)
        ensures
            method == method_or_unknown(s@),
    {
        match <HttpMethod as FromStr>::from_str(s) {
            Ok(method) => method,
            Err(_) => HttpMethod::Unknown,
        }
    }
}

impl FromStr for HttpMethod {
    type Err = ();

    /// Reads a method token. Fails on every token but `"GET"`, `"POST"`,
    /// `"PUT"` and `"DELETE"`.
    fn from_str(s: &str) -> (parsed: Result<Self, Self::Err>)
        ensures
            parsed == match method_of_token(s@) {
                Some(method) => Ok::<HttpMethod, ()>(method),
                None => Err::<HttpMethod, ()>(()),
            },
    {
        if str_eq(s, "GET") {
            Ok(HttpMethod::GET)
        } else if str_eq(s, "POST") {
            Ok(HttpMethod::POST)
        } else if str_eq(s, "PUT") {
            Ok(HttpMethod::PUT)
        } else if str_eq(s, "DELETE") {
            Ok(HttpMethod::DELETE)
        } else {
            Err(())
        }
    }
}

impl Default for HttpMethod {
    fn default() -> (method: Self)
        ensures
            method == HttpMethod::Unknown,
    {
        HttpMethod::Unknown
    }
}

/// Reading the text of a method gives the method back, but for `Unknown`,
/// whose text names no method.
pub proof fn law_method_text_round_trip(method: HttpMethod)
    ensures
        method_or_unknown(method_text(method)) == method,
        method != HttpMethod::Unknown ==> method_of_token(method_text(method)) == Some(method),
        method_of_token(method_text(HttpMethod::Unknown)) is None,
{
    reveal_strlit("GET");
    reveal_strlit("POST");
    reveal_strlit("PUT");
    reveal_strlit("DELETE");
    reveal_strlit("UNKNOWN");
    assert("GET"@.len() == 3 && "PUT"@.len() == 3 && "POST"@.len() == 4 && "DELETE"@.len() == 6
        && "UNKNOWN"@.len() == 7);
    assert("GET"@[0] == 'G' && "PUT"@[0] == 'P');
}

} // verus!
