//! The server: a routing table of handlers, and the service that answers
//! each request with the handler of its route.

use crate::decode::{Decoded, DecodedView};
use crate::errors::{outcome, HandlerError};
use crate::http_server::HttpService;
use crate::request::{Request, RequestView};
use crate::response::{Response, ResponseView};
use crate::router::{register, resolve, MatchView, MatchedRoute, RouteMatcher, RouteView};
use std::sync::Arc;
use vstd::prelude::*;

verus! {

/// What answers the requests of a route.
pub trait RouteHandler {
    /// What the handler says of its own answers: whether it may answer
    /// `req` by returning `done`, with `rsp` as the response filled in. A
    /// handler states here as much as it wants its callers to know; one
    /// that states nothing may answer anyhow.
    open spec fn responds(
        &self,
        req: RequestView,
        done: Result<(), Seq<char>>,
        rsp: ResponseView,
    ) -> bool {
        true
    }

    /// Answers `req` by filling in `res`, which is handed over as
    /// `Response::new` makes it, over an empty scratch buffer.
    fn call(&self, req: Request<'_>, res: &mut Response<'_>) -> (done: Result<(), HandlerError>)
        requires
            old(res).is_fresh(),
        ensures
            self.responds(req@, outcome(done), final(res)@),
    ;
}

/// The response to a request that no route accepts: `404 Not Found`,
/// without extra headers and without a body.
pub open spec fn not_found() -> ResponseView {
    ResponseView { code: 404, reason: "Not Found"@, headers: Seq::empty(), body: Seq::empty() }
}

/// The request as the handler of `route` sees it.
pub open spec fn routed<H>(req: DecodedView, route: MatchView<H>) -> RequestView {
    RequestView {
        req,
        parameters: route.parameters,
        url_parameters: route.url_parameters,
        body: req.body,
    }
}

/// The request as the handler of its route is to see it, and that
/// handler: the decoded request, with the parameters that the route bound
/// on the path and those of the query.
pub fn route_request<'a, H>(req: Decoded<'a>, route: MatchedRoute<H>) -> (handed: (
    Request<'a>,
    Arc<H>,
))
    ensures
        handed.0@ == routed(req@, route@),
        *handed.1 == route@.handler,
{
    let body = req.body();
    (Request::new(req, route.parameters, route.url_parameters, body), route.handler)
}

/// A server: routes and their handlers.
pub struct Server<H> {
    route_handlers: RouteMatcher<H>,
}

impl<H> View for Server<H> {
    type V = Seq<RouteView<H>>;

    closed spec fn view(&self) -> Seq<RouteView<H>> {
        self.route_handlers@
    }
}

impl<H> Clone for Server<H> {
    /// A second server with the same routes, which shares their handlers.
    fn clone(&self) -> (copy: Self)
        ensures
            copy@ == self@,
    {
        Server { route_handlers: self.route_handlers.clone() }
    }
}

impl<H: RouteHandler> Server<H> {
    /// A server without routes.
    pub fn new() -> (server: Self)
        ensures
            server@ == Seq::<RouteView<H>>::empty(),
    {
        Server { route_handlers: RouteMatcher::new() }
    }

    /// Registers `handler` for `method` and the pattern `path`. A handler
    /// already registered for the same method and pattern is replaced.
    pub fn add_route_handler(&mut self, method: &str, path: &str, handler: H)
        ensures
            final(self)@ == register(old(self)@, method@, path@, handler),
    {
        self.route_handlers.add_route(method, path, handler);
    }

    /// Registers `handler` for `GET` requests to `path`.
    pub fn get(&mut self, path: &str, handler: H)
        ensures
            final(self)@ == register(old(self)@, "GET"@, path@, handler),
    {
        self.add_route_handler("GET", path, handler);
    }

    /// Registers `handler` for `POST` requests to `path`.
    pub fn post(&mut self, path: &str, handler: H)
        ensures
            final(self)@ == register(old(self)@, "POST"@, path@, handler),
    {
        self.add_route_handler("POST", path, handler);
    }

    /// Registers `handler` for `PUT` requests to `path`.
    pub fn put(&mut self, path: &str, handler: H)
        ensures
            final(self)@ == register(old(self)@, "PUT"@, path@, handler),
    {
        self.add_route_handler("PUT", path, handler);
    }

    /// Registers `handler` for `DELETE` requests to `path`.
    pub fn delete(&mut self, path: &str, handler: H)
        ensures
            final(self)@ == register(old(self)@, "DELETE"@, path@, handler),
    {
        self.add_route_handler("DELETE", path, handler);
    }

    /// Registers `handler` for `HEAD` requests to `path`.
    pub fn head(&mut self, path: &str, handler: H)
        ensures
            final(self)@ == register(old(self)@, "HEAD"@, path@, handler),
    {
        self.add_route_handler("HEAD", path, handler);
    }

    /// Registers `handler` for `OPTIONS` requests to `path`.
    pub fn options(&mut self, path: &str, handler: H)
        ensures
            final(self)@ == register(old(self)@, "OPTIONS"@, path@, handler),
    {
        self.add_route_handler("OPTIONS", path, handler);
    }

    /// Registers `handler` for `TRACE` requests to `path`.
    pub fn trace(&mut self, path: &str, handler: H)
        ensures
            final(self)@ == register(old(self)@, "TRACE"@, path@, handler),
    {
        self.add_route_handler("TRACE", path, handler);
    }

    /// Registers `handler` for `CONNECT` requests to `path`.
    pub fn connect(&mut self, path: &str, handler: H)
        ensures
            final(self)@ == register(old(self)@, "CONNECT"@, path@, handler),
    {
        self.add_route_handler("CONNECT", path, handler);
    }

    /// Registers `handler` for `PATCH` requests to `path`.
    pub fn patch(&mut self, path: &str, handler: H)
        ensures
            final(self)@ == register(old(self)@, "PATCH"@, path@, handler),
    {
        self.add_route_handler("PATCH", path, handler);
    }
}

impl<H: RouteHandler> HttpService for Server<H> {
    /// A server answers a request as the handler of the first route that
    /// accepts it does, given the request together with the parameters that
    /// the route bound; it answers a request that no route accepts with
    /// `404 Not Found`, and succeeds. Its routes stay as they are.
    open spec fn answers(
        &self,
        req: DecodedView,
        done: Result<(), Seq<char>>,
        rsp: ResponseView,
        after: &Self,
    ) -> bool {
        &&& after@ == self@
        &&& match resolve(self@, req.head.method, req.head.path) {
            Some(route) => route.handler.responds(routed(req, route), done, rsp),
            None => done is Ok && rsp == not_found(),
        }
    }

    /// Answers a request with the handler of the first route that accepts
    /// it, which gets the request together with the parameters that the
    /// route bound, and hands on what that handler returns. A request that
    /// no route accepts is answered with `404 Not Found`.
    fn handler(&mut self, req: Decoded<'_>, res: &mut Response<'_>) -> (done: Result<
        (),
        HandlerError,
    >) {
        let head = req.raw();
        let found = self.route_handlers.match_route(head.method, head.path);
        match found {
            Some(matched_route) => {
                let (context_req, handler) = route_request(req, matched_route);
                handler.call(context_req, res)
            },
            None => {
                res.status_code(404, "Not Found");
                Ok(())
            },
        }
    }
}

} // verus!
