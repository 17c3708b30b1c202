//! Routes: the verb-plus-path key a request is matched on, and the handler
//! registered for it.

use vstd::prelude::*;
use vstd::string::*;
use crate::request::{Request, RequestView};
use crate::response::{Response, ResponseView};

verus! {

/// The HTTP verbs the server understands.
#[derive(Debug, Clone, Copy, PartialEq, Eq, Structural)]
pub enum MethodKind {
    GET,
}

/// The matching key of a route: a verb and an exact path. No
/// normalization (trailing slash, case) is performed on the path.
#[derive(Debug)]
pub struct Method {
    pub path: String,
    pub method: MethodKind,
}

/// The mathematical value of a method descriptor.
pub struct MethodView {
    pub path: Seq<char>,
    pub method: MethodKind,
}

impl View for Method {
    type V = MethodView;

    open spec fn view(&self) -> MethodView {
        MethodView { path: self.path@, method: self.method }
    }
}

/// Key equality: same verb and exactly the same path.
pub open spec fn method_key_eq(a: MethodView, b: MethodView) -> bool {
    a.method == b.method && a.path == b.path
}

impl PartialEq for Method {
    fn eq(&self, other: &Method) -> (r: bool) {
        self.method == other.method && self.path == other.path
    }
}

impl vstd::std_specs::cmp::PartialEqSpecImpl for Method {
    open spec fn obeys_eq_spec() -> bool {
        true
    }

    open spec fn eq_spec(&self, other: &Method) -> bool {
        method_key_eq(self@, other@)
    }
}

impl Clone for Method {
    fn clone(&self) -> (r: Self)
        ensures
            r == *self,
    {
        Method { path: self.path.clone(), method: self.method }
    }
}

/// String equality through the standard comparison.
fn str_eq(a: &str, b: &str) -> (r: bool)
    ensures
        r == (a@ == b@),
{
    let sa = String::from_str(a);
    let sb = String::from_str(b);
    sa == sb
}

impl Method {
    /// Builds the key from a verb and a path; fails when the verb is not a
    /// supported one.
    pub fn try_from(verb: &str, path: &str) -> (r: Result<Method, ()>)
        ensures
            verb@ == "GET"@ ==> (r matches Ok(m) && m@ == (MethodView {
                path: path@,
                method: MethodKind::GET,
            })),
            verb@ != "GET"@ ==> r is Err,
    {
        if str_eq(verb, "GET") {
            Ok(Method { path: String::from_str(path), method: MethodKind::GET })
        } else {
            Err(())
        }
    }
}

/// A unit of code that produces a Response for a Request. Every handler
/// must return exactly one response, pinned by its own `response_spec`.
pub trait Handler: Sized {
    /// The response the handler returns, as a function of the request.
    spec fn response_spec(&self, req: RequestView) -> ResponseView;

    /// Produces the response for `req`.
    fn handle(&self, req: &Request) -> (r: Response)
        ensures
            r@ == self.response_spec(req@),
    ;
}

/// A handler that returns the same prepared response for every request,
/// the shape every registration in this server takes: the content is
/// rendered when the route is registered.
pub struct StaticHandler {
    pub response: Response,
}

impl StaticHandler {
    /// Wraps a prepared response as a handler.
    pub fn new(response: Response) -> (r: StaticHandler)
        ensures
            r.response == response,
    {
        StaticHandler { response }
    }
}

impl Handler for StaticHandler {
    open spec fn response_spec(&self, req: RequestView) -> ResponseView {
        self.response@
    }

    fn handle(&self, _req: &Request) -> (r: Response) {
        self.response.clone()
    }
}

/// A registered route: a matching key and the handler invoked for it.
pub struct Route<H> {
    pub method: Method,
    pub handler: H,
}

impl<H> Route<H> {
    /// Creates a new route.
    pub fn new(method: Method, handler: H) -> (r: Route<H>)
        ensures
            r.method == method,
            r.handler == handler,
    {
        Route { method, handler }
    }
}

} // verus!
