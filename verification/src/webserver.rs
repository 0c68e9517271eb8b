//! The server: its registry of routes and its life cycle.
//!
//! A server is `Stopped` or `Running`. The library keeps that state and
//! decides; the program around it owns the socket, the stop flag and the task
//! that accepts connections, performs what `start` and `stop` decide on and
//! tells the server what came of it (`bound`, `stopped`).

use crate::http_method::HttpMethod;
use crate::routehandler::{
    find_route, first_match, has_reserved, lemma_first_match, path_has_reserved, RouteHandler,
};
use vstd::prelude::*;
use vstd::string::StringExecFns;

verus! {

/// A web server: the address and port it listens on, its routes in the order
/// of their registration, and whether it runs.
pub struct WebServer<H> {
    routes: Vec<RouteHandler<H>>,
    is_running: bool,
    local_addr: Option<String>,
    pub address: String,
    pub port: String,
}

/// The state of a server.
pub struct ServerState<H> {
    /// The routes, in the order of their registration.
    pub routes: Seq<RouteHandler<H>>,
    /// Whether the server runs.
    pub running: bool,
    /// The address that the socket was bound to, once it is known.
    pub local_addr: Option<Seq<char>>,
    /// The address to listen on.
    pub address: Seq<char>,
    /// The port to listen on.
    pub port: Seq<char>,
}

impl<H> ServerState<H> {
    /// Whether a route of this method and path is registered.
    pub open spec fn has_route(self, method: HttpMethod, path: Seq<char>) -> bool {
        exists|i: int|
            0 <= i < self.routes.len() && (#[trigger] self.routes[i]).handles(method, path)
    }

    /// Whether `route` can be registered: the server does not run, no route of
    /// the same method and path is registered, the path is not empty and holds
    /// no reserved character, and the method is not `Unknown`.
    pub open spec fn accepts(self, route: RouteHandler<H>) -> bool {
        &&& !self.running
        &&& !self.has_route(route.method, route.path@)
        &&& route.path@.len() > 0
        &&& route.method != HttpMethod::Unknown
        &&& !has_reserved(route.path@)
    }

    /// The state after `route` was offered: it stands behind the others if it
    /// was accepted, and nothing has changed if it was not.
    pub open spec fn add_route(self, route: RouteHandler<H>) -> ServerState<H> {
        if self.accepts(route) {
            ServerState { routes: self.routes.push(route), ..self }
        } else {
            self
        }
    }

    /// The route that answers `method` and `path`: the first to do so, in the
    /// order of registration.
    pub open spec fn find_route(self, method: HttpMethod, path: Seq<char>) -> Option<
        RouteHandler<H>,
    > {
        match first_match(self.routes, method, path) {
            Some(i) => Some(self.routes[i]),
            None => None,
        }
    }

    /// The state after `start`: running, the bound address not yet known. A
    /// running server stays as it is.
    pub open spec fn start(self) -> ServerState<H> {
        if self.running {
            self
        } else {
            ServerState { running: true, local_addr: None, ..self }
        }
    }

    /// The state after the socket was bound to `local_addr`. A server that
    /// does not run takes no address.
    pub open spec fn bound(self, local_addr: Seq<char>) -> ServerState<H> {
        if self.running {
            ServerState { local_addr: Some(local_addr), ..self }
        } else {
            self
        }
    }

    /// Whether `stop` shuts the server down: it runs and the bound address is
    /// known.
    pub open spec fn can_shut_down(self) -> bool {
        self.running && self.local_addr is Some
    }

    /// The state after the accepting task has ended: stopped, if `stop` had
    /// called for the shutdown, and unchanged if it had not.
    pub open spec fn stopped(self) -> ServerState<H> {
        if self.can_shut_down() {
            ServerState { running: false, local_addr: None, ..self }
        } else {
            self
        }
    }

    /// The invariant of a server: every route could be registered, no two
    /// routes have the same method and path, and only a running server knows
    /// a bound address.
    pub open spec fn wf(self) -> bool {
        &&& forall|i: int|
            0 <= i < self.routes.len() ==> {
                &&& (#[trigger] self.routes[i]).path@.len() > 0
                &&& self.routes[i].method != HttpMethod::Unknown
                &&& !has_reserved(self.routes[i].path@)
            }
        &&& forall|i: int, j: int|
            0 <= i < j < self.routes.len() ==> !(#[trigger] self.routes[i]).handles(
                (#[trigger] self.routes[j]).method,
                self.routes[j].path@,
            )
        &&& self.local_addr is Some ==> self.running
    }
}

impl<H> View for WebServer<H> {
    type V = ServerState<H>;

    closed spec fn view(&self) -> ServerState<H> {
        ServerState {
            routes: self.routes@,
            running: self.is_running,
            local_addr: match self.local_addr {
                Some(local_addr) => Some(local_addr@),
                None => None,
            },
            address: self.address@,
            port: self.port@,
        }
    }
}

/// Whether `copy` is a snapshot of `routes`: as many routes, each of the same
/// method and path as the one in its place, with a clone of its handler.
pub open spec fn is_snapshot<H: Clone>(
    routes: Seq<RouteHandler<H>>,
    copy: Seq<RouteHandler<H>>,
) -> bool {
    &&& copy.len() == routes.len()
    &&& forall|i: int|
        0 <= i < routes.len() ==> {
            &&& (#[trigger] copy[i]).method == routes[i].method
            &&& copy[i].path == routes[i].path
            &&& cloned(routes[i].handler, copy[i].handler)
        }
}

/// What `start` calls for.
pub enum StartAction<H> {
    /// The server runs already: there is nothing to do.
    AlreadyRunning,
    /// Bind a socket to `endpoint`, which failing is fatal; report the
    /// address it was bound to with `bound`; clear the stop flag; and accept
    /// connections on one task, which serves them one after the other from
    /// `routes`.
    Launch { endpoint: String, routes: Vec<RouteHandler<H>> },
}

/// What `stop` calls for.
#[derive(Debug, PartialEq, Eq)]
pub enum StopAction {
    /// The server does not run: there is nothing to do.
    NotRunning,
    /// The server runs, but the address of its socket is not known: it cannot
    /// be stopped.
    MissingAddress,
    /// Set the stop flag, connect to `local_addr` to wake the accepting task,
    /// wait for the task to end and report that with `stopped`.
    Shutdown { local_addr: String },
}

/// What the accepting task does when `accept` has returned.
#[derive(Clone, Copy, PartialEq, Eq, Debug, Structural)]
pub enum AcceptAction {
    /// Leave the loop: the task ends.
    Stop,
    /// Serve the connection, then accept the next.
    Serve,
    /// No connection came of it: accept the next.
    Skip,
}

/// The step of the accepting task: the stop flag is looked at first, once for
/// each connection and before it is served; a connection that was accepted is
/// served, a failed `accept` is passed over.
pub open spec fn accept_step(stop_requested: bool, accepted: bool) -> AcceptAction {
    if stop_requested {
        AcceptAction::Stop
    } else if accepted {
        AcceptAction::Serve
    } else {
        AcceptAction::Skip
    }
}

/// Decides the step of the accepting task: see `accept_step`.
pub fn on_accept(stop_requested: bool, accepted: bool) -> (action: AcceptAction)
    ensures
        action == accept_step(stop_requested, accepted),
{
    if stop_requested {
        AcceptAction::Stop
    } else if accepted {
        AcceptAction::Serve
    } else {
        AcceptAction::Skip
    }
}

impl<H> WebServer<H> {
    /// A stopped server without routes that is to listen on `url` and `port`.
    pub fn new(url: &str, port: &str) -> (server: WebServer<H>)
        ensures
            server@.routes == Seq::<RouteHandler<H>>::empty(),
            !server@.running,
            server@.local_addr is None,
            server@.wf(),
            server@.address == url@,
            server@.port == port@,
    {
        WebServer {
            routes: Vec::new(),
            is_running: false,
            local_addr: None,
            address: url.to_owned(),
            port: port.to_owned(),
        }
    }

    /// Registers a route and says whether it was registered: see
    /// `ServerState::accepts`. A route that is turned down leaves the server
    /// as it was.
    pub fn add_route(&mut self, handler: RouteHandler<H>) -> (added: bool)
        ensures
            added == old(self)@.accepts(handler),
            final(self)@ == old(self)@.add_route(handler),
    {
        if self.is_running {
            return false;
        }
        match find_route(&self.routes, handler.method, handler.path.as_str()) {
            Some(i) => {
                assert(self@.routes[i as int].handles(handler.method, handler.path@)) by {
                    lemma_first_match(self@.routes, handler.method, handler.path@);
                }
                return false;
            },
            None => {
                assert(!self@.has_route(handler.method, handler.path@)) by {
                    lemma_first_match(self@.routes, handler.method, handler.path@);
                }
            },
        }
        if handler.path.as_str().is_empty() {
            return false;
        }
        if handler.method == HttpMethod::Unknown {
            return false;
        }
        if path_has_reserved(handler.path.as_str()) {
            return false;
        }
        self.routes.push(handler);
        true
    }

    /// The route that answers `method` and `path`, if one is registered:
    /// both are its own, to the letter.
    pub fn find_route(&self, method: HttpMethod, path: &str) -> (found: Option<&RouteHandler<H>>)
        ensures
            match found {
                Some(route) => self@.find_route(method, path@) == Some(*route),
                None => self@.find_route(method, path@) is None,
            },
    {
        match find_route(&self.routes, method, path) {
            Some(i) => Some(&self.routes[i]),
            None => None,
        }
    }

    /// The routes, in the order of their registration.
    pub fn routes(&self) -> (routes: &Vec<RouteHandler<H>>)
        ensures
            routes@ == self@.routes,
    {
        &self.routes
    }

    /// Whether the server runs.
    pub fn is_running(&self) -> (running: bool)
        ensures
            running == self@.running,
    {
        self.is_running
    }

    /// Records the address that the socket was bound to and says whether it
    /// was recorded: a server that does not run takes none.
    pub fn bound(&mut self, local_addr: String) -> (recorded: bool)
        ensures
            recorded == old(self)@.running,
            final(self)@ == old(self)@.bound(local_addr@),
    {
        if self.is_running {
            self.local_addr = Some(local_addr);
            true
        } else {
            false
        }
    }

    /// Decides what stopping the server takes, and changes nothing: the
    /// server stays `Running` until `stopped` is called.
    pub fn stop(&self) -> (action: StopAction)
        ensures
            match action {
                StopAction::NotRunning => !self@.running,
                StopAction::MissingAddress => self@.running && self@.local_addr is None,
                StopAction::Shutdown { local_addr } => self@.running && self@.local_addr == Some(
                    local_addr@,
                ),
            },
    {
        if !self.is_running {
            return StopAction::NotRunning;
        }
        match &self.local_addr {
            None => StopAction::MissingAddress,
            Some(local_addr) => StopAction::Shutdown { local_addr: local_addr.clone() },
        }
    }

    /// Records that the accepting task has ended, which makes the server
    /// `Stopped`, and says whether it did: a server for which `stop` does not
    /// call for the shutdown stays as it is.
    pub fn stopped(&mut self) -> (done: bool)
        ensures
            done == old(self)@.can_shut_down(),
            final(self)@ == old(self)@.stopped(),
    {
        if self.is_running && self.local_addr.is_some() {
            self.is_running = false;
            self.local_addr = None;
            true
        } else {
            false
        }
    }
}

impl<H: Clone> WebServer<H> {
    /// Starts the server: a stopped server becomes `Running` and calls for
    /// the launch of the accepting task, on `address:port` and with a
    /// snapshot of the routes; a running server stays as it is.
    pub fn start(&mut self) -> (action: StartAction<H>)
        ensures
            final(self)@ == old(self)@.start(),
            match action {
                StartAction::AlreadyRunning => old(self)@.running,
                StartAction::Launch { endpoint, routes } => {
                    &&& !old(self)@.running
                    &&& endpoint@ == old(self)@.address + ":"@ + old(self)@.port
                    &&& is_snapshot(old(self)@.routes, routes@)
                },
            },
    {
        if self.is_running {
            return StartAction::AlreadyRunning;
        }
        let mut endpoint = self.address.clone();
        endpoint.append(":");
        endpoint.append(self.port.as_str());
        let mut routes: Vec<RouteHandler<H>> = Vec::new();
        let mut i: usize = 0;
        while i < self.routes.len()
            invariant
                0 <= i <= self.routes.len(),
                is_snapshot(self.routes@.take(i as int), routes@),
            decreases self.routes.len() - i,
        {
            let route = self.routes[i].clone();
            routes.push(route);
            i = i + 1;
        }
        assert(self.routes@.take(i as int) == self.routes@);
        self.is_running = true;
        self.local_addr = None;
        StartAction::Launch { endpoint, routes }
    }
}

/// A registered route is found by its own method and path and by no other:
/// in a server that holds its invariant, the search for `method` and `path`
/// gives the route of index `i` exactly if they are that route's own.
pub proof fn law_route_found_by_its_own<H>(
    state: ServerState<H>,
    i: int,
    method: HttpMethod,
    path: Seq<char>,
)
    requires
        state.wf(),
        0 <= i < state.routes.len(),
    ensures
        first_match(state.routes, method, path) == Some(i) <==> state.routes[i].handles(
            method,
            path,
        ),
        state.routes[i].handles(method, path) ==> state.find_route(method, path) == Some(
            state.routes[i],
        ),
{
    lemma_first_match(state.routes, method, path);
    if state.routes[i].handles(method, path) {
        let found = first_match(state.routes, method, path)->0;
        if found < i {
            assert(state.routes[found].handles(state.routes[i].method, state.routes[i].path@));
        }
    }
}

/// A route is found exactly for the methods and paths that are registered,
/// and the route that is found answers them.
pub proof fn law_found_iff_registered<H>(state: ServerState<H>, method: HttpMethod, path: Seq<char>)
    ensures
        state.find_route(method, path) is Some <==> state.has_route(method, path),
        state.find_route(method, path) matches Some(route) ==> route.handles(method, path)
            && state.routes.contains(route),
{
    lemma_first_match(state.routes, method, path);
}

/// A route that was registered is found from then on, and the search for any
/// other method or path gives what it gave before.
pub proof fn law_add_then_find<H>(
    state: ServerState<H>,
    route: RouteHandler<H>,
    method: HttpMethod,
    path: Seq<char>,
)
    requires
        state.accepts(route),
    ensures
        state.add_route(route).find_route(route.method, route.path@) == Some(route),
        !route.handles(method, path) ==> state.add_route(route).find_route(method, path)
            == state.find_route(method, path),
{
    let after = state.add_route(route);
    let last = state.routes.len() as int;
    assert(after.routes[last] == route);
    assert forall|k: int| 0 <= k < last implies after.routes[k] == state.routes[k] by {}
    lemma_first_match(after.routes, route.method, route.path@);
    assert(first_match(after.routes, route.method, route.path@) == Some(last)) by {
        let found = first_match(after.routes, route.method, route.path@);
        if found is None {
            assert(!after.routes[last].handles(route.method, route.path@));
        } else if found->0 < last {
            assert(state.routes[found->0].handles(route.method, route.path@));
        }
    }
    if !route.handles(method, path) {
        lemma_first_match(after.routes, method, path);
        lemma_first_match(state.routes, method, path);
        let before = first_match(state.routes, method, path);
        let now = first_match(after.routes, method, path);
        if now is Some {
            assert(now->0 < last);
            assert(state.routes[now->0].handles(method, path));
            if before is Some && before->0 < now->0 {
                assert(after.routes[before->0].handles(method, path));
            }
        } else if before is Some {
            assert(after.routes[before->0].handles(method, path));
        }
    }
}

/// Of two routes of one method and path the first to be offered is
/// registered and the second is turned down: the server then holds one route
/// more than before, whether the second was offered or not.
pub proof fn law_register_twice<H>(
    state: ServerState<H>,
    first: RouteHandler<H>,
    second: RouteHandler<H>,
)
    requires
        state.accepts(first),
        second.handles(first.method, first.path@),
    ensures
        state.add_route(first).routes == state.routes.push(first),
        !state.add_route(first).accepts(second),
        state.add_route(first).add_route(second) == state.add_route(first),
        state.add_route(first).add_route(second).routes.len() == state.routes.len() + 1,
{
    let after = state.add_route(first);
    assert(after.routes[state.routes.len() as int].handles(second.method, second.path@));
}

/// A route with an empty path, with the method `Unknown` or with a reserved
/// character in its path is turned down by every server, which stays as it
/// was.
pub proof fn law_invalid_route_is_rejected<H>(state: ServerState<H>, route: RouteHandler<H>)
    requires
        route.path@.len() == 0 || route.method == HttpMethod::Unknown || has_reserved(
            route.path@,
        ),
    ensures
        !state.accepts(route),
        state.add_route(route) == state,
{
}

/// A running server takes no route.
pub proof fn law_running_server_takes_no_route<H>(state: ServerState<H>, route: RouteHandler<H>)
    requires
        state.running,
    ensures
        !state.accepts(route),
        state.add_route(route) == state,
{
}

/// Every step keeps the invariant of the server.
pub proof fn law_invariant_is_kept<H>(
    state: ServerState<H>,
    route: RouteHandler<H>,
    local_addr: Seq<char>,
)
    requires
        state.wf(),
    ensures
        state.add_route(route).wf(),
        state.start().wf(),
        state.bound(local_addr).wf(),
        state.stopped().wf(),
{
    if state.accepts(route) {
        let after = state.add_route(route);
        let last = state.routes.len() as int;
        assert(after.routes[last] == route);
        assert forall|i: int, j: int| 0 <= i < j < after.routes.len() implies !(
        #[trigger] after.routes[i]).handles(
            (#[trigger] after.routes[j]).method,
            after.routes[j].path@,
        ) by {
            assert(after.routes[i] == state.routes[i]);
            if j < last {
                assert(after.routes[j] == state.routes[j]);
            }
        }
        assert forall|i: int| 0 <= i < after.routes.len() implies {
            &&& (#[trigger] after.routes[i]).path@.len() > 0
            &&& after.routes[i].method != HttpMethod::Unknown
            &&& !has_reserved(after.routes[i].path@)
        } by {
            if i < last {
                assert(after.routes[i] == state.routes[i]);
            }
        }
    }
}

/// A server that was started and whose socket was bound can be shut down,
/// is then as it was before the start, and starts again as it did the first
/// time. Starting a running server and stopping a stopped one change nothing.
pub proof fn law_start_stop_start<H>(state: ServerState<H>, local_addr: Seq<char>)
    requires
        state.wf(),
        !state.running,
    ensures
        state.start().running,
        state.start().routes == state.routes,
        state.start().start() == state.start(),
        state.start().bound(local_addr).can_shut_down(),
        state.start().bound(local_addr).stopped() == state,
        state.start().bound(local_addr).stopped().start() == state.start(),
        state.stopped() == state,
{
}

} // verus!
