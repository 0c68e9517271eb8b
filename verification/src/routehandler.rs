//! Routes: a method and a path with the handler that answers them, and the
//! search for the route of a request.

use crate::http_method::{method_text, HttpMethod};
use crate::request::Request;
use crate::response::Response;
use crate::text::{chars_of, str_eq};
use vstd::prelude::*;
use vstd::string::StringExecFns;

verus! {

/// What a handler is: a function from a request to a response that may be
/// called from the task that serves the connections.
pub trait HandlerFn: Fn(Request) -> Response + Send + Sync {

}

impl<T> HandlerFn for T where T: Fn(Request) -> Response + Send + Sync {

}

/// A route: the handler `handler` answers the requests of method `method` for
/// the path `path`. The library stores and hands out the handler and never
/// calls it, so it may be of any type `H`.
pub struct RouteHandler<H> {
    pub method: HttpMethod,
    pub path: String,
    pub handler: H,
}

/// Whether `c` is one of the characters kept back for path patterns:
/// `{ } * ? + | ^ $ . \ # & =`.
pub open spec fn is_reserved(c: char) -> bool {
    ||| c == '{'
    ||| c == '}'
    ||| c == '*'
    ||| c == '?'
    ||| c == '+'
    ||| c == '|'
    ||| c == '^'
    ||| c == '$'
    ||| c == '.'
    ||| c == '\\'
    ||| c == '#'
    ||| c == '&'
    ||| c == '='
}

/// Whether a path holds a reserved character.
pub open spec fn has_reserved(path: Seq<char>) -> bool {
    exists|i: int| 0 <= i < path.len() && is_reserved(#[trigger] path[i])
}

/// Tests a character for being reserved.
pub fn char_is_reserved(c: char) -> (b: bool)
    ensures
        b == is_reserved(c),
{
    c == '{' || c == '}' || c == '*' || c == '?' || c == '+' || c == '|' || c == '^' || c == '$'
        || c == '.' || c == '\\' || c == '#' || c == '&' || c == '='
}

/// Tests a path for a reserved character.
pub fn path_has_reserved(path: &str) -> (b: bool)
    ensures
        b == has_reserved(path@),
{
    let chars = chars_of(path);
    let mut i: usize = 0;
    while i < chars.len()
        invariant
            chars@ == path@,
            0 <= i <= chars.len(),
            forall|k: int| 0 <= k < i ==> !is_reserved(#[trigger] path@[k]),
        decreases chars.len() - i,
    {
        if char_is_reserved(chars[i]) {
            assert(is_reserved(path@[i as int]));
            return true;
        }
        i = i + 1;
    }
    false
}

impl<H> RouteHandler<H> {
    /// Whether the route answers `method` and `path`: both are the route's
    /// own, to the letter.
    pub open spec fn handles(&self, method: HttpMethod, path: Seq<char>) -> bool {
        self.method == method && self.path@ == path
    }

    /// The route of `method` and `path` with the handler `handler`.
    pub fn new(method: HttpMethod, path: &str, handler: H) -> (route: RouteHandler<H>)
        ensures
            route.method == method,
            route.path@ == path@,
            route.handler == handler,
    {
        RouteHandler { method, path: path.to_owned(), handler }
    }

    /// Whether the route answers `method` and `path`. Nothing is folded: a
    /// slash at the end and the case of a letter count.
    pub fn handles_path(&self, method: HttpMethod, path: &str) -> (b: bool)
        ensures
            b == self.handles(method, path@),
    {
        if self.method != method {
            return false;
        }
        str_eq(self.path.as_str(), path)
    }

    /// Method and path, a blank between them.
    pub fn to_string(&self) -> (text: String)
        ensures
            text@ == method_text(self.method) + " "@ + self.path@,
    {
        let mut text = self.method.to_string();
        text.append(" ");
        text.append(self.path.as_str());
        text
    }
}

impl<H: Clone> Clone for RouteHandler<H> {
    /// A route of the same method and path whose handler is a clone of this
    /// one's.
    fn clone(&self) -> (route: Self)
        ensures
            route.method == self.method,
            route.path == self.path,
            cloned(self.handler, route.handler),
    {
        RouteHandler {
            method: self.method,
            path: self.path.clone(),
            handler: self.handler.clone(),
        }
    }
}

/// The index of the first route at or after `i` that answers `method` and
/// `path`, or the number of routes where none does.
pub open spec fn match_from<H>(
    routes: Seq<RouteHandler<H>>,
    method: HttpMethod,
    path: Seq<char>,
    i: int,
) -> int
    decreases routes.len() - i,
{
    if 0 <= i < routes.len() && !routes[i].handles(method, path) {
        match_from(routes, method, path, i + 1)
    } else {
        i
    }
}

/// The index of the first route, in the order of the sequence, that answers
/// `method` and `path`.
pub open spec fn first_match<H>(
    routes: Seq<RouteHandler<H>>,
    method: HttpMethod,
    path: Seq<char>,
) -> Option<int> {
    let i = match_from(routes, method, path, 0);
    if i < routes.len() {
        Some(i)
    } else {
        None
    }
}

/// `match_from` stays within the routes, passes over no route that answers
/// and stops at one that answers or at the end.
pub proof fn lemma_match_from<H>(
    routes: Seq<RouteHandler<H>>,
    method: HttpMethod,
    path: Seq<char>,
    i: int,
)
    requires
        0 <= i <= routes.len(),
    ensures
        i <= match_from(routes, method, path, i) <= routes.len(),
        forall|k: int|
            i <= k < match_from(routes, method, path, i) ==> !(#[trigger] routes[k]).handles(
                method,
                path,
            ),
        match_from(routes, method, path, i) < routes.len() ==> routes[match_from(
            routes,
            method,
            path,
            i,
        )].handles(method, path),
    decreases routes.len() - i,
{
    if i < routes.len() && !routes[i].handles(method, path) {
        lemma_match_from(routes, method, path, i + 1);
    }
}

/// What `first_match` finds: a route that answers, before which none
/// answers; and nothing only where no route answers.
pub proof fn lemma_first_match<H>(routes: Seq<RouteHandler<H>>, method: HttpMethod, path: Seq<char>)
    ensures
        match first_match(routes, method, path) {
            Some(i) => {
                &&& 0 <= i < routes.len()
                &&& routes[i].handles(method, path)
                &&& forall|k: int| 0 <= k < i ==> !(#[trigger] routes[k]).handles(method, path)
            },
            None => forall|k: int|
                0 <= k < routes.len() ==> !(#[trigger] routes[k]).handles(method, path),
        },
{
    lemma_match_from(routes, method, path, 0);
}

/// Finds the route of a request: the index of the first of `routes` that
/// answers `method` and `path`, if one does.
pub fn find_route<H>(routes: &Vec<RouteHandler<H>>, method: HttpMethod, path: &str) -> (found:
    Option<usize>)
    ensures
        match found {
            Some(i) => first_match(routes@, method, path@) == Some(i as int),
            None => first_match(routes@, method, path@) is None,
        },
{
    let mut i: usize = 0;
    while i < routes.len()
        invariant
            0 <= i <= routes.len(),
            match_from(routes@, method, path@, 0) == match_from(routes@, method, path@, i as int),
        decreases routes.len() - i,
    {
        if routes[i].handles_path(method, path) {
            return Some(i);
        }
        i = i + 1;
    }
    None
}

} // verus!
