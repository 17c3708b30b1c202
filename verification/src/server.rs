//! The route table and the dispatch pipeline: look a parsed request up,
//! invoke the matching handler (or the fallback), and serialize the
//! response into the bytes to write back.

use vstd::prelude::*;
use crate::request::{ParseError, Request, RequestView, spec_parse};
use crate::response::{Response, spec_default_not_found, spec_serialize, ResponseView};
use crate::route::{Handler, Method, MethodView, Route, method_key_eq};

verus! {

/// The ordered collection of registered routes, plus the optional
/// designated "not found" route. Registration order decides ties: the
/// first registered route with a key wins every lookup for it.
pub struct RouteTable<H> {
    pub routes: Vec<Route<H>>,
    pub not_found: Option<Route<H>>,
}

/// Index of the first route whose key equals `key`, scanning in
/// registration order.
pub open spec fn spec_find<H>(rs: Seq<Route<H>>, key: MethodView) -> Option<int>
    decreases rs.len(),
{
    if rs.len() == 0 {
        None
    } else if method_key_eq(rs[0].method@, key) {
        Some(0)
    } else {
        match spec_find(rs.drop_first(), key) {
            Some(i) => Some(i + 1),
            None => None,
        }
    }
}

proof fn lemma_spec_find_props<H>(rs: Seq<Route<H>>, key: MethodView)
    ensures
        match spec_find(rs, key) {
            Some(i) => 0 <= i < rs.len() && method_key_eq(rs[i].method@, key) && (forall|j: int|
                0 <= j < i ==> !method_key_eq(rs[j].method@, key)),
            None => forall|j: int| 0 <= j < rs.len() ==> !method_key_eq(rs[j].method@, key),
        },
    decreases rs.len(),
{
    if rs.len() == 0 {
    } else if method_key_eq(rs[0].method@, key) {
    } else {
        lemma_spec_find_props(rs.drop_first(), key);
        match spec_find(rs.drop_first(), key) {
            Some(i) => {
                assert(rs.drop_first()[i] == rs[i + 1]);
                assert(spec_find(rs, key) == Some(i + 1));
                assert forall|j: int| 0 <= j < i + 1 implies !method_key_eq(
                    rs[j].method@,
                    key,
                ) by {
                    if j > 0 {
                        assert(rs.drop_first()[j - 1] == rs[j]);
                    }
                }
            },
            None => {
                assert forall|j: int| 0 <= j < rs.len() implies !method_key_eq(
                    rs[j].method@,
                    key,
                ) by {
                    if j > 0 {
                        assert(rs.drop_first()[j - 1] == rs[j]);
                    }
                }
            },
        }
    }
}

/// The response dispatch produces: the first matching route's handler
/// answers; with no match the "not found" route answers if registered,
/// else the synthesized default 404.
pub open spec fn spec_dispatch<H: Handler>(
    rs: Seq<Route<H>>,
    nf: Option<Route<H>>,
    req: RequestView,
) -> ResponseView {
    match spec_find(rs, req.method) {
        Some(i) => rs[i].handler.response_spec(req),
        None => match nf {
            Some(r) => r.handler.response_spec(req),
            None => spec_default_not_found(),
        },
    }
}

/// The bytes a connection gets back for its lines, or the parse error
/// that aborts the connection.
pub open spec fn spec_respond<H: Handler>(
    rs: Seq<Route<H>>,
    nf: Option<Route<H>>,
    lines: Seq<Seq<char>>,
) -> Result<Seq<u8>, ParseError> {
    match spec_parse(lines) {
        Ok(req) => Ok(spec_serialize(spec_dispatch(rs, nf, req))),
        Err(e) => Err(e),
    }
}

impl<H: Handler> RouteTable<H> {
    /// An empty table: no routes, no "not found" route.
    pub fn new() -> (r: RouteTable<H>)
        ensures
            r.routes@ == Seq::<Route<H>>::empty(),
            r.not_found is None,
    {
        RouteTable { routes: Vec::new(), not_found: None }
    }

    /// Appends a route. Duplicate keys are permitted; the earlier
    /// registration keeps winning lookups.
    pub fn register_route(&mut self, route: Route<H>)
        ensures
            final(self).routes@ == old(self).routes@.push(route),
            final(self).not_found == old(self).not_found,
    {
        self.routes.push(route);
    }

    /// Sets the "not found" route. There is a single slot: a later call
    /// overwrites an earlier one.
    pub fn register_not_found(&mut self, route: Route<H>)
        ensures
            final(self).routes@ == old(self).routes@,
            final(self).not_found == Some(route),
    {
        self.not_found = Some(route);
    }

    /// Linear scan for the first route whose key equals `key`, in
    /// registration order; none if no route matches.
    pub fn find(&self, key: &Method) -> (r: Option<&Route<H>>)
        ensures
            match spec_find(self.routes@, key@) {
                Some(i) => r matches Some(route) && *route == self.routes@[i],
                None => r is None,
            },
    {
        let mut i: usize = 0;
        while i < self.routes.len()
            invariant
                i <= self.routes@.len(),
                forall|j: int| 0 <= j < i ==> !method_key_eq(self.routes@[j].method@, key@),
            decreases self.routes@.len() - i,
        {
            if self.routes[i].method == *key {
                proof {
                    assert(method_key_eq(self.routes@[i as int].method@, key@));
                    lemma_spec_find_props(self.routes@, key@);
                    match spec_find(self.routes@, key@) {
                        Some(k) => {
                            assert(k == i as int);
                        },
                        None => {
                            assert(false);
                        },
                    }
                }
                return Some(&self.routes[i]);
            }
            i = i + 1;
        }
        proof {
            lemma_spec_find_props(self.routes@, key@);
        }
        None
    }

    /// Produces the response for a parsed request: the first matching
    /// route's handler answers; otherwise the "not found" route if one is
    /// registered, else the synthesized default 404.
    pub fn dispatch(&self, req: &Request) -> (resp: Response)
        ensures
            resp@ == spec_dispatch(self.routes@, self.not_found, req@),
    {
        match self.find(&req.method) {
            Some(route) => route.handler.handle(req),
            None => match &self.not_found {
                Some(route) => route.handler.handle(req),
                None => Response::default_not_found(),
            },
        }
    }

    /// The whole per-connection pipeline after reading: parse the lines,
    /// dispatch, and serialize the response into the bytes to write. A
    /// parse error is returned to the caller, which drops the connection.
    pub fn respond(&self, lines: Vec<String>) -> (r: Result<Vec<u8>, ParseError>)
        requires
            lines@.len() >= 1,
        ensures
            match r {
                Ok(bytes) => spec_respond(self.routes@, self.not_found, lines.deep_view()) == Ok::<
                    Seq<u8>,
                    ParseError,
                >(bytes@),
                Err(e) => spec_respond(self.routes@, self.not_found, lines.deep_view()) == Err::<
                    Seq<u8>,
                    ParseError,
                >(e),
            },
    {
        let request = match Request::new(lines) {
            Ok(req) => req,
            Err(e) => {
                return Err(e);
            },
        };
        let response = self.dispatch(&request);
        let bytes = response.serialize();
        Ok(bytes)
    }
}

/// Matching determinism: when two routes share the same key, lookup never
/// reaches the later duplicate — the result is the first-registered
/// matching route, at an index no later than the earlier one.
pub proof fn lemma_first_registered_wins<H: Handler>(
    rs: Seq<Route<H>>,
    key: MethodView,
    i: int,
    j: int,
)
    requires
        0 <= i < j < rs.len(),
        method_key_eq(rs[i].method@, key),
        method_key_eq(rs[j].method@, key),
    ensures
        spec_find(rs, key) matches Some(k) && k <= i,
{
    lemma_spec_find_props(rs, key);
}

/// Lookups are read-only and their outcome is a function of the table and
/// the key alone, so any two lookups with the same key agree.
pub proof fn lemma_find_idempotent<H: Handler>(
    rs: Seq<Route<H>>,
    key: MethodView,
    r1: Option<int>,
    r2: Option<int>,
)
    requires
        r1 == spec_find(rs, key),
        r2 == spec_find(rs, key),
    ensures
        r1 == r2,
{
}

/// Fallback ordering: when no route matches, a registered "not found"
/// route answers verbatim — its status code is whatever its handler set,
/// not forced to 404 — and with none registered the response is exactly
/// the synthesized default: status 404, no headers, the fixed text body.
pub proof fn lemma_fallback_ordering<H: Handler>(
    rs: Seq<Route<H>>,
    nf: Option<Route<H>>,
    req: RequestView,
)
    requires
        spec_find(rs, req.method) is None,
    ensures
        nf matches Some(r) ==> spec_dispatch(rs, nf, req) == r.handler.response_spec(req),
        nf is None ==> spec_dispatch(rs, nf, req) == spec_default_not_found(),
{
}

} // verus!
