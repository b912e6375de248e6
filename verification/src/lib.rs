//! A minimal single-process HTTP server library: handlers are registered for
//! (method, path-pattern) pairs, and one request/response exchange is carried
//! out per connection.  The request parser, the route table with its matching
//! and parameter-extraction rules, and the response serialization are all
//! verified; the TCP plumbing lives outside this crate and hands raw request
//! text in and response text out.

pub mod http;
pub mod text;

use crate::http::method_eq;
use crate::http::method_matches_token;
use crate::http::parse_ok;
use crate::http::req_tokens;
use crate::http::Method;
use crate::http::Request;
use crate::http::Response;
use crate::text::split_on;
use crate::text::split_on_str;
use crate::text::str_eq;
use vstd::prelude::*;

verus! {

/// A routed procedure: it reads the request and mutates the shared response,
/// and nothing else.
///
/// `effect` is the implementor's own statement of what one invocation does
/// to the response; `handle` is held to it.  An implementation written
/// outside this crate's proofs is taken at its word, as the callbacks handed
/// to a route table always are.
pub trait Handler: Sized {
    /// How the response `handle` leaves relates to the one it was given.
    /// The default claims nothing; an implementation that wants its callers
    /// to know more overrides it.
    open spec fn effect(&self, req: Request, pre: Response, post: Response) -> bool {
        true
    }

    fn handle(&self, req: &Request, res: &mut Response)
        ensures
            self.effect(*req, *old(res), *final(res)),
    ;
}

/// A registered route: a method, a path pattern whose ":"-prefixed segments
/// are parameters, and the handler to run on a match.
pub struct Mount<H> {
    pub method: Method,
    pub path: String,
    pub callback: H,
}

/// The "/" that separates path segments.
pub open spec fn slash() -> Seq<char> {
    seq!['/']
}

/// A pattern segment against a path segment: a ":"-prefixed pattern segment
/// matches any non-empty segment, any other must be equal.
pub open spec fn seg_matches(p: Seq<char>, x: Seq<char>) -> bool {
    if p.len() > 0 && p[0] == ':' {
        x.len() > 0
    } else {
        p == x
    }
}

/// A pattern against a path: the segment sequences have equal length and
/// match position by position.
pub open spec fn path_matches(pattern: Seq<char>, path: Seq<char>) -> bool {
    let ps = split_on(pattern, slash());
    let xs = split_on(path, slash());
    &&& ps.len() == xs.len()
    &&& forall|i: int| 0 <= i < ps.len() ==> seg_matches(#[trigger] ps[i], xs[i])
}

/// A route against a request: equal methods and a matching path.
pub open spec fn mount_matches<H>(m: Mount<H>, req: Request) -> bool {
    method_eq(&m.method, &req.method) && path_matches(m.path@, req.path@)
}

/// The parameter bindings a pattern extracts from a path: for each
/// ":"-prefixed pattern segment with a corresponding path segment, the name
/// after the ":" maps to that segment's text.
pub open spec fn params_from(
    ps: Seq<Seq<char>>,
    xs: Seq<Seq<char>>,
    acc: Map<Seq<char>, Seq<char>>,
) -> Map<Seq<char>, Seq<char>>
    decreases ps.len(),
{
    if ps.len() == 0 {
        acc
    } else {
        let p = ps[0];
        let bound = if p.len() > 0 && p[0] == ':' && xs.len() > 0 {
            acc.insert(p.skip(1), xs[0])
        } else {
            acc
        };
        params_from(
            ps.skip(1),
            if xs.len() > 0 {
                xs.skip(1)
            } else {
                xs
            },
            bound,
        )
    }
}

/// The parameter bindings of a pattern applied to a path.
pub open spec fn params_of(pattern: Seq<char>, path: Seq<char>) -> Map<Seq<char>, Seq<char>> {
    params_from(split_on(pattern, slash()), split_on(path, slash()), Map::empty())
}

/// The index of the first route, in registration order, whose pattern
/// matches the path.
pub open spec fn first_path_match<H>(mounts: Seq<Mount<H>>, path: Seq<char>) -> Option<int>
    decreases mounts.len(),
{
    if mounts.len() == 0 {
        None
    } else if path_matches(mounts[0].path@, path) {
        Some(0)
    } else {
        match first_path_match(mounts.skip(1), path) {
            None => None,
            Some(k) => Some(k + 1),
        }
    }
}

/// `first_path_match` is the least matching index: if nothing matches below
/// the scan position, a match there pins the result, and running off the end
/// pins `None`.
pub proof fn lemma_first_path_match<H>(mounts: Seq<Mount<H>>, path: Seq<char>, i: int)
    requires
        0 <= i <= mounts.len(),
        forall|j: int| 0 <= j < i ==> !path_matches(#[trigger] mounts[j].path@, path),
    ensures
        i < mounts.len() && path_matches(mounts[i].path@, path) ==> first_path_match(mounts, path)
            == Some(i),
        i == mounts.len() ==> first_path_match(mounts, path) == None::<int>,
    decreases i,
{
    if i > 0 {
        let tail = mounts.skip(1);
        assert(forall|j: int|
            0 <= j < i - 1 ==> !path_matches(#[trigger] tail[j].path@, path)) by {
            assert(forall|j: int| 0 <= j < i - 1 ==> tail[j] == mounts[j + 1]);
        }
        lemma_first_path_match(tail, path, i - 1);
        assert(!path_matches(mounts[0].path@, path));
        if i < mounts.len() && path_matches(mounts[i].path@, path) {
            assert(tail[i - 1] == mounts[i]);
        }
    }
}

impl<H> Mount<H> {
    /// The route's path pattern matches the given request path.
    pub fn matches_path(&self, path: &str) -> (r: bool)
        ensures
            r == path_matches(self.path@, path@),
    {
        proof {
            reveal_strlit("/");
            assert("/"@ =~= slash());
        }
        let ps = split_on_str(self.path.as_str(), "/");
        let xs = split_on_str(path, "/");
        if ps.len() != xs.len() {
            return false;
        }
        let mut i: usize = 0;
        while i < ps.len()
            invariant
                ps.deep_view() == split_on(self.path@, slash()),
                xs.deep_view() == split_on(path@, slash()),
                ps@.len() == xs@.len(),
                i <= ps@.len(),
                forall|k: int|
                    0 <= k < i ==> seg_matches(#[trigger] ps.deep_view()[k], xs.deep_view()[k]),
            decreases ps@.len() - i,
        {
            let p = &ps[i];
            let x = &xs[i];
            proof {
                assert(ps.deep_view()[i as int] == p@);
                assert(xs.deep_view()[i as int] == x@);
            }
            let pl = p.as_str().unicode_len();
            if pl > 0 && p.as_str().get_char(0) == ':' {
                if x.as_str().is_empty() {
                    return false;
                }
            } else {
                if !str_eq(p.as_str(), x.as_str()) {
                    return false;
                }
            }
            i += 1;
        }
        true
    }

    /// A description of the route for diagnostics: its method and path,
    /// leaving the callback out.
    pub fn describe(&self) -> (r: String)
        ensures
            r@ == "Mount { method: "@ + crate::http::method_name(&self.method) + ", path: \""@
                + self.path@ + "\" }"@,
    {
        let name = self.method.name();
        let mut r = String::from_str("Mount { method: ");
        r.append(name.as_str());
        r.append(", path: \"");
        r.append(self.path.as_str());
        r.append("\" }");
        proof {
            assert(r@ =~= "Mount { method: "@ + crate::http::method_name(&self.method)
                + ", path: \""@ + self.path@ + "\" }"@);
        }
        r
    }

    /// The route matches the request: equal methods and a matching path.
    pub fn matches(&self, other: &Request) -> (r: bool)
        ensures
            r == mount_matches(*self, *other),
    {
        if self.method == other.method {
            self.matches_path(other.path.as_str())
        } else {
            false
        }
    }
}

/// Decimal digits, for the status code in the status line.
pub open spec fn digit_char(d: int) -> char {
    if d == 0 {
        '0'
    } else if d == 1 {
        '1'
    } else if d == 2 {
        '2'
    } else if d == 3 {
        '3'
    } else if d == 4 {
        '4'
    } else if d == 5 {
        '5'
    } else if d == 6 {
        '6'
    } else if d == 7 {
        '7'
    } else if d == 8 {
        '8'
    } else {
        '9'
    }
}

/// The decimal notation of `n`, most significant digit first.
pub open spec fn dec_chars(n: int) -> Seq<char>
    decreases n,
{
    if n < 10 {
        seq![digit_char(n)]
    } else {
        dec_chars(n / 10) + seq![digit_char(n % 10)]
    }
}

/// The status line written before the body, with an empty header block.
pub open spec fn status_line(status: int) -> Seq<char> {
    "HTTP/1.1 "@ + dec_chars(status) + " OK\r\n\r\n"@
}

/// The wire form of a response: status line, empty header block, body.
pub open spec fn serialized(r: Response) -> Seq<char> {
    status_line(r.status as int) + r.stream@
}

/// The fixed reply to a request that did not parse.
pub open spec fn bad_request_chars() -> Seq<char> {
    "HTTP/1.1 400 Bad Request\r\n\r\n"@
}

fn digit_str(d: u16) -> (r: &'static str)
    requires
        d < 10,
    ensures
        r@ == seq![digit_char(d as int)],
{
    proof {
        reveal_strlit("0");
        reveal_strlit("1");
        reveal_strlit("2");
        reveal_strlit("3");
        reveal_strlit("4");
        reveal_strlit("5");
        reveal_strlit("6");
        reveal_strlit("7");
        reveal_strlit("8");
        reveal_strlit("9");
    }
    match d {
        0 => "0",
        1 => "1",
        2 => "2",
        3 => "3",
        4 => "4",
        5 => "5",
        6 => "6",
        7 => "7",
        8 => "8",
        _ => "9",
    }
}

fn push_dec(out: &mut String, n: u16)
    ensures
        final(out)@ == old(out)@ + dec_chars(n as int),
    decreases n,
{
    if n >= 10 {
        push_dec(out, n / 10);
        out.append(digit_str(n % 10));
        proof {
            assert(old(out)@ + dec_chars(n as int / 10) + seq![digit_char(n as int % 10)] =~= old(
                out,
            )@ + dec_chars(n as int));
        }
    } else {
        out.append(digit_str(n));
    }
}

/// The response as it goes onto the wire: `HTTP/1.1 <status> OK`, a blank
/// line, then the accumulated body text.  The header list is not emitted.
pub fn serialize_response(res: &Response) -> (out: String)
    ensures
        out@ == serialized(*res),
{
    let mut out = String::from_str("HTTP/1.1 ");
    push_dec(&mut out, res.status);
    out.append(" OK\r\n\r\n");
    out.append(res.stream.as_str());
    proof {
        assert(out@ =~= serialized(*res));
    }
    out
}

/// A configuration fault found before any socket is touched.
#[derive(Clone, Copy, Debug, PartialEq, Eq, Structural)]
pub enum ConfigError {
    /// The port was 0; ports range over 1-65535.
    PortOutOfRange,
}

/// Ports range over 1-65535, so 0 is rejected up front, before any socket
/// operation is attempted.
pub fn validate_port(port: u16) -> (r: Result<u16, ConfigError>)
    ensures
        r is Ok <==> port != 0,
        r matches Ok(p) ==> p == port,
        r matches Err(e) ==> e == ConfigError::PortOutOfRange,
{
    if port == 0 {
        Err(ConfigError::PortOutOfRange)
    } else {
        Ok(port)
    }
}

/// The route matches the request that raw text `s` parses to: the method
/// token and the path are read off the request line.
pub open spec fn route_matches_raw<H>(m: Mount<H>, s: Seq<char>) -> bool {
    &&& method_matches_token(m.method, req_tokens(s)[0])
    &&& path_matches(m.path@, req_tokens(s)[1])
}

/// Some route in the table matches the request that `s` parses to.
pub open spec fn any_route_matches<H>(mounts: Seq<Mount<H>>, s: Seq<char>) -> bool {
    exists|k: int| 0 <= k < mounts.len() && route_matches_raw(#[trigger] mounts[k], s)
}

/// Two methods are equal exactly when they denote the same request-line
/// token, given that one of them denotes `tok`.
pub proof fn lemma_method_eq_token(a: Method, b: Method, tok: Seq<char>)
    requires
        method_matches_token(b, tok),
    ensures
        method_eq(&a, &b) == method_matches_token(a, tok),
{
    reveal_strlit("GET");
    reveal_strlit("POST");
    reveal_strlit("PUT");
    reveal_strlit("PATCH");
    reveal_strlit("DELETE");
    assert("GET"@.len() == 3);
    assert("POST"@.len() == 4);
    assert("PUT"@.len() == 3);
    assert("PATCH"@.len() == 5);
    assert("DELETE"@.len() == 6);
    assert("GET"@[0] == 'G');
    assert("PUT"@[0] == 'P');
}

/// Methods isolate routes: a route registered for POST never matches a GET
/// request, and a route registered for GET never matches a POST request,
/// whatever the paths.
pub proof fn lemma_method_isolation<H>(m: Mount<H>, req: Request)
    requires
        (m.method is POST && req.method is GET) || (m.method is GET && req.method is POST),
    ensures
        !mount_matches(m, req),
{
}

/// The indices at or after `i` of the routes that match the request, in
/// registration order.
pub open spec fn matching_indices<H>(mounts: Seq<Mount<H>>, req: Request, i: int) -> Seq<int>
    decreases mounts.len() - i,
{
    if i < 0 || i >= mounts.len() {
        Seq::empty()
    } else if mount_matches(mounts[i], req) {
        seq![i] + matching_indices(mounts, req, i + 1)
    } else {
        matching_indices(mounts, req, i + 1)
    }
}

/// The run of a route table over one request: `tr` traces the response from
/// its state before dispatch (`tr[0]`) through the effect of each matching
/// route's handler, in registration order, to its state after.
pub open spec fn dispatch_trace<H: Handler>(
    mounts: Seq<Mount<H>>,
    req: Request,
    tr: Seq<Response>,
) -> bool {
    let ms = matching_indices(mounts, req, 0);
    &&& tr.len() == ms.len() + 1
    &&& (forall|t: int|
        0 <= t < ms.len() ==> mounts[ms[t]].callback.effect(req, #[trigger] tr[t], tr[t + 1]))
}

/// Dispatch-order law: when exactly two routes match the request, and each
/// of their handlers appends a fixed text to the response body, the body
/// after dispatch is the body before, then the earlier-registered route's
/// text, then the later one's — contributions concatenate in registration
/// order.
pub proof fn lemma_dispatch_appends_in_order<H: Handler>(
    mounts: Seq<Mount<H>>,
    req: Request,
    tr: Seq<Response>,
    a: Seq<char>,
    b: Seq<char>,
)
    requires
        matching_indices(mounts, req, 0).len() == 2,
        dispatch_trace(mounts, req, tr),
        forall|x: Response, y: Response|
            mounts[matching_indices(mounts, req, 0)[0]].callback.effect(req, x, y)
                ==> y.stream@ == x.stream@ + a,
        forall|x: Response, y: Response|
            mounts[matching_indices(mounts, req, 0)[1]].callback.effect(req, x, y)
                ==> y.stream@ == x.stream@ + b,
    ensures
        tr[2].stream@ == tr[0].stream@ + (a + b),
{
    assert(tr[1].stream@ == tr[0].stream@ + a);
    assert(tr[2].stream@ == tr[1].stream@ + b);
    crate::http::lemma_body_accumulation(tr[0], tr[1], tr[2], a, b);
}

/// `req` is the request that the text `s` parses to, with its route
/// parameters bound: they are what the first route whose pattern matches the
/// path extracts, and empty when no pattern matches.
pub open spec fn request_with_params<H>(mounts: Seq<Mount<H>>, s: Seq<char>, req: Request) -> bool {
    &&& method_matches_token(req.method, req_tokens(s)[0])
    &&& req.path@ == req_tokens(s)[1]
    &&& req.version@ == req_tokens(s)[2]
    &&& (match req.body {
        Some(b) => crate::http::body_of(s) == Some(b@),
        None => crate::http::body_of(s) is None,
    })
    &&& crate::http::headers_of(s) == Ok::<Map<Seq<char>, Seq<char>>, crate::http::ParseError>(
        crate::http::string_map_view(&req.headers),
    )
    &&& (match first_path_match(mounts, req_tokens(s)[1]) {
        Some(k) => crate::http::string_map_view(&req.params) == params_of(
            mounts[k].path@,
            req_tokens(s)[1],
        ),
        None => req.params@ == Map::<Seq<char>, String>::empty(),
    })
}

/// The application object: an ordered route table.  Routes are only ever
/// appended, and dispatch runs the handlers of every matching route in
/// registration order.
pub struct Express<H> {
    pub mounts: Vec<Mount<H>>,
}

impl<H: Handler> Express<H> {
    pub fn new() -> (r: Express<H>)
        ensures
            r.mounts@ == Seq::<Mount<H>>::empty(),
    {
        Express { mounts: Vec::new() }
    }

    fn add_mount(&mut self, method: Method, path: &str, callback: H)
        ensures
            final(self).mounts@.len() == old(self).mounts@.len() + 1,
            final(self).mounts@.subrange(0, old(self).mounts@.len() as int) == old(self).mounts@,
            final(self).mounts@.last().method == method,
            final(self).mounts@.last().path@ == path@,
            final(self).mounts@.last().callback == callback,
    {
        let mount = Mount { method, path: String::from_str(path), callback };
        self.mounts.push(mount);
        proof {
            assert(self.mounts@.subrange(0, old(self).mounts@.len() as int) =~= old(self).mounts@);
        }
    }

    /// Register a handler for GET requests on `path`.
    pub fn get(&mut self, path: &str, callback: H)
        ensures
            final(self).mounts@.len() == old(self).mounts@.len() + 1,
            final(self).mounts@.subrange(0, old(self).mounts@.len() as int) == old(self).mounts@,
            final(self).mounts@.last().method is GET,
            final(self).mounts@.last().path@ == path@,
            final(self).mounts@.last().callback == callback,
    {
        self.add_mount(Method::GET, path, callback);
    }

    /// Register a handler for POST requests on `path`.
    pub fn post(&mut self, path: &str, callback: H)
        ensures
            final(self).mounts@.len() == old(self).mounts@.len() + 1,
            final(self).mounts@.subrange(0, old(self).mounts@.len() as int) == old(self).mounts@,
            final(self).mounts@.last().method is POST,
            final(self).mounts@.last().path@ == path@,
            final(self).mounts@.last().callback == callback,
    {
        self.add_mount(Method::POST, path, callback);
    }

    /// Register a handler for PUT requests on `path`.
    pub fn put(&mut self, path: &str, callback: H)
        ensures
            final(self).mounts@.len() == old(self).mounts@.len() + 1,
            final(self).mounts@.subrange(0, old(self).mounts@.len() as int) == old(self).mounts@,
            final(self).mounts@.last().method is PUT,
            final(self).mounts@.last().path@ == path@,
            final(self).mounts@.last().callback == callback,
    {
        self.add_mount(Method::PUT, path, callback);
    }

    /// Register a handler for DELETE requests on `path`.
    pub fn delete(&mut self, path: &str, callback: H)
        ensures
            final(self).mounts@.len() == old(self).mounts@.len() + 1,
            final(self).mounts@.subrange(0, old(self).mounts@.len() as int) == old(self).mounts@,
            final(self).mounts@.last().method is DELETE,
            final(self).mounts@.last().path@ == path@,
            final(self).mounts@.last().callback == callback,
    {
        self.add_mount(Method::DELETE, path, callback);
    }

    /// Register a handler for PATCH requests on `path`.
    pub fn patch(&mut self, path: &str, callback: H)
        ensures
            final(self).mounts@.len() == old(self).mounts@.len() + 1,
            final(self).mounts@.subrange(0, old(self).mounts@.len() as int) == old(self).mounts@,
            final(self).mounts@.last().method is PATCH,
            final(self).mounts@.last().path@ == path@,
            final(self).mounts@.last().callback == callback,
    {
        self.add_mount(Method::PATCH, path, callback);
    }

    /// Bind the request's route parameters from the first registered route
    /// whose pattern matches its path: exactly what that route's pattern
    /// extracts.  When no pattern matches, the parameters are left as they
    /// came; no other field is ever touched.
    pub fn bind_first_match_params(&self, req: &mut Request)
        ensures
            final(req).method == old(req).method,
            final(req).path == old(req).path,
            final(req).version == old(req).version,
            final(req).body == old(req).body,
            final(req).headers == old(req).headers,
            match first_path_match(self.mounts@, old(req).path@) {
                Some(k) => crate::http::string_map_view(&final(req).params) == params_of(
                    self.mounts@[k].path@,
                    old(req).path@,
                ),
                None => final(req).params == old(req).params,
            },
    {
        let mut i: usize = 0;
        while i < self.mounts.len()
            invariant
                i <= self.mounts@.len(),
                *req == *old(req),
                forall|j: int|
                    0 <= j < i ==> !path_matches(#[trigger] self.mounts@[j].path@, old(req).path@),
            decreases self.mounts@.len() - i,
        {
            if self.mounts[i].matches_path(req.path.as_str()) {
                proof {
                    lemma_first_path_match(self.mounts@, req.path@, i as int);
                }
                req.params = crate::http::parse_params(&self.mounts[i], req.path.as_str());
                return;
            }
            i += 1;
        }
        proof {
            lemma_first_path_match(self.mounts@, req.path@, self.mounts@.len() as int);
        }
    }

    /// Run the handler of every route that matches the request, in
    /// registration order, against the one shared response.  Reports whether
    /// any route matched; when none did, the response is untouched.  The
    /// response walks a trace: each matching route's handler takes it from
    /// one trace state to the next, earliest registration first.
    pub fn dispatch(&self, req: &Request, res: &mut Response) -> (handled: bool)
        ensures
            handled == (exists|k: int|
                0 <= k < self.mounts@.len() && mount_matches(#[trigger] self.mounts@[k], *req)),
            !handled ==> *final(res) == *old(res),
            exists|tr: Seq<Response>|
                {
                    &&& #[trigger] dispatch_trace(self.mounts@, *req, tr)
                    &&& tr[0] == *old(res)
                    &&& tr[tr.len() - 1] == *final(res)
                },
    {
        let mut handled = false;
        let mut i: usize = 0;
        let ghost mut ms_done: Seq<int> = Seq::empty();
        let ghost mut tr: Seq<Response> = seq![*res];
        while i < self.mounts.len()
            invariant
                i <= self.mounts@.len(),
                handled == (exists|k: int|
                    0 <= k < i && mount_matches(#[trigger] self.mounts@[k], *req)),
                !handled ==> *res == *old(res),
                matching_indices(self.mounts@, *req, 0) == ms_done + matching_indices(
                    self.mounts@,
                    *req,
                    i as int,
                ),
                tr.len() == ms_done.len() + 1,
                tr[0] == *old(res),
                tr[ms_done.len() as int] == *res,
                forall|t: int|
                    0 <= t < ms_done.len() ==> self.mounts@[ms_done[t]].callback.effect(
                        *req,
                        #[trigger] tr[t],
                        tr[t + 1],
                    ),
            decreases self.mounts@.len() - i,
        {
            let ghost pre = *res;
            let ghost ms_pre = ms_done;
            let ghost tr_pre = tr;
            let m = &self.mounts[i];
            if m.matches(req) {
                m.callback.handle(req, res);
                handled = true;
                proof {
                    assert(mount_matches(self.mounts@[i as int], *req));
                    ms_done = ms_done.push(i as int);
                    tr = tr.push(*res);
                    assert(matching_indices(self.mounts@, *req, i as int) == seq![i as int]
                        + matching_indices(self.mounts@, *req, i as int + 1));
                    assert(ms_pre + (seq![i as int] + matching_indices(
                        self.mounts@,
                        *req,
                        i as int + 1,
                    )) =~= ms_done + matching_indices(self.mounts@, *req, i as int + 1));
                    assert(tr[ms_done.len() - 1] == pre);
                    assert forall|t: int|
                        0 <= t < ms_done.len() implies self.mounts@[ms_done[t]].callback.effect(
                        *req,
                        #[trigger] tr[t],
                        tr[t + 1],
                    ) by {
                        if t < ms_pre.len() {
                            assert(ms_done[t] == ms_pre[t]);
                            assert(tr[t] == tr_pre[t] && tr[t + 1] == tr_pre[t + 1]);
                        } else {
                            assert(ms_done[t] == i as int);
                        }
                    }
                }
            } else {
                proof {
                    assert(matching_indices(self.mounts@, *req, i as int) == matching_indices(
                        self.mounts@,
                        *req,
                        i as int + 1,
                    ));
                }
            }
            i += 1;
        }
        proof {
            assert(matching_indices(self.mounts@, *req, self.mounts@.len() as int)
                == Seq::<int>::empty());
            assert(matching_indices(self.mounts@, *req, 0) =~= ms_done);
            assert(dispatch_trace(self.mounts@, *req, tr));
        }
        handled
    }

    /// One connection's whole exchange, from raw request text to response
    /// text: parse, bind the parameters of the first route whose pattern
    /// matches the path, dispatch to every matching route, serialize.  Text
    /// that does not parse is answered with a fixed 400 status line; for
    /// text that parses, the output serializes the last state of a dispatch
    /// trace that starts from a fresh response and runs the matching
    /// handlers on the parsed, parameter-bound request.
    pub fn handle_connection(&self, raw: String) -> (out: String)
        ensures
            !parse_ok(raw@) ==> out@ == bad_request_chars(),
            parse_ok(raw@) ==> (exists|r: Response| out@ == serialized(r)),
            parse_ok(raw@) ==> (exists|req: Request, tr: Seq<Response>|
                {
                    &&& request_with_params(self.mounts@, raw@, req)
                    &&& #[trigger] dispatch_trace(self.mounts@, req, tr)
                    &&& tr[0].stream@ == Seq::<char>::empty()
                    &&& tr[0].status == 200
                    &&& out@ == serialized(tr[tr.len() - 1])
                }),
            parse_ok(raw@) && !any_route_matches(self.mounts@, raw@) ==> out@ == status_line(200),
    {
        let parsed = Request::from_string(raw);
        let mut req = match parsed {
            Ok(r) => r,
            Err(_) => {
                return String::from_str("HTTP/1.1 400 Bad Request\r\n\r\n");
            },
        };
        self.bind_first_match_params(&mut req);
        let mut res = Response::new();
        let ghost fresh = res;
        let handled = self.dispatch(&req, &mut res);
        let out = serialize_response(&res);
        proof {
            assert forall|k: int|
                0 <= k < self.mounts@.len() && mount_matches(
                    #[trigger] self.mounts@[k],
                    req,
                ) implies route_matches_raw(self.mounts@[k], raw@) by {
                lemma_method_eq_token(self.mounts@[k].method, req.method, req_tokens(raw@)[0]);
            }
            if !handled {
                assert(out@ =~= status_line(200));
            }
            assert(request_with_params(self.mounts@, raw@, req));
            let tr = choose|tr: Seq<Response>|
                {
                    &&& #[trigger] dispatch_trace(self.mounts@, req, tr)
                    &&& tr[0] == fresh
                    &&& tr[tr.len() - 1] == res
                };
            assert(dispatch_trace(self.mounts@, req, tr) && tr[0].stream@ == Seq::<char>::empty()
                && tr[0].status == 200 && out@ == serialized(tr[tr.len() - 1]));
        }
        out
    }
}

impl<H: Handler> Default for Express<H> {
    fn default() -> (r: Express<H>)
        ensures
            r.mounts@ == Seq::<Mount<H>>::empty(),
    {
        Express::new()
    }
}

} // verus!
