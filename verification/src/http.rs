//! The HTTP message model and the request parser.
//!
//! `Request::from_string` turns raw request text into a structured [`Request`]
//! or a [`ParseError`].  The parser's behaviour is specified by a pipeline of
//! spec functions over `Seq<char>`: the header section ends at the first
//! double-CRLF, the request line is the first line of that section and must
//! hold a method token, a path beginning with "/" and a version, the remaining
//! lines are header fields split at their first colon, and the body is
//! everything after the double-CRLF.

use crate::text::find_sub;
use crate::text::is_space;
use crate::text::is_space_char;
use crate::text::split_on;
use crate::text::strip_seps;
use crate::text::trimmed;
use crate::text::ws_split;
use crate::text::find_str;
use crate::text::lemma_find_from_some;
use crate::text::split_on_str;
use crate::text::strip_seps_str;
use crate::text::trim_str;
use crate::text::ws_split_str;
use crate::text::str_eq;
use crate::params_from;
use crate::params_of;
use crate::slash;
use crate::Mount;
use vstd::hash_map::StringHashMap;
use vstd::prelude::*;

verus! {

/// Common HTTP methods.
///
/// A method token outside the closed tag set is carried verbatim in
/// `Method::UNKNOWN`; equality is structural, so two unknown methods are equal
/// exactly when their tokens are.
#[derive(Debug)]
pub enum Method {
    GET,
    POST,
    PUT,
    PATCH,
    DELETE,
    UNKNOWN(String),
}

/// Structural equality on methods: `UNKNOWN` tokens compare by contents.
pub open spec fn method_eq(a: &Method, b: &Method) -> bool {
    match (a, b) {
        (Method::GET, Method::GET) => true,
        (Method::POST, Method::POST) => true,
        (Method::PUT, Method::PUT) => true,
        (Method::PATCH, Method::PATCH) => true,
        (Method::DELETE, Method::DELETE) => true,
        (Method::UNKNOWN(x), Method::UNKNOWN(y)) => x@ == y@,
        _ => false,
    }
}

impl PartialEq for Method {
    fn eq(&self, other: &Method) -> (r: bool) {
        match (self, other) {
            (Method::GET, Method::GET) => true,
            (Method::POST, Method::POST) => true,
            (Method::PUT, Method::PUT) => true,
            (Method::PATCH, Method::PATCH) => true,
            (Method::DELETE, Method::DELETE) => true,
            (Method::UNKNOWN(x), Method::UNKNOWN(y)) => str_eq(x.as_str(), y.as_str()),
            _ => false,
        }
    }
}

impl vstd::std_specs::cmp::PartialEqSpecImpl for Method {
    open spec fn obeys_eq_spec() -> bool {
        true
    }

    open spec fn eq_spec(&self, other: &Method) -> bool {
        method_eq(self, other)
    }
}

/// The method's token as written on the wire.
pub open spec fn method_name(m: &Method) -> Seq<char> {
    match m {
        Method::GET => "GET"@,
        Method::POST => "POST"@,
        Method::PUT => "PUT"@,
        Method::PATCH => "PATCH"@,
        Method::DELETE => "DELETE"@,
        Method::UNKNOWN(s) => s@,
    }
}

impl Method {
    /// The method's token as written on the wire.
    pub fn name(&self) -> (r: String)
        ensures
            r@ == method_name(self),
    {
        match self {
            Method::GET => String::from_str("GET"),
            Method::POST => String::from_str("POST"),
            Method::PUT => String::from_str("PUT"),
            Method::PATCH => String::from_str("PATCH"),
            Method::DELETE => String::from_str("DELETE"),
            Method::UNKNOWN(s) => s.clone(),
        }
    }
}

/// The token is one of the five recognized method names.
pub open spec fn is_known_method_token(tok: Seq<char>) -> bool {
    tok == "GET"@ || tok == "POST"@ || tok == "PUT"@ || tok == "PATCH"@ || tok == "DELETE"@
}

/// `m` is the method that the request-line token `tok` denotes.
pub open spec fn method_matches_token(m: Method, tok: Seq<char>) -> bool {
    match m {
        Method::GET => tok == "GET"@,
        Method::POST => tok == "POST"@,
        Method::PUT => tok == "PUT"@,
        Method::PATCH => tok == "PATCH"@,
        Method::DELETE => tok == "DELETE"@,
        Method::UNKNOWN(s) => s@ == tok && !is_known_method_token(tok),
    }
}

/// Why a request text was rejected.
#[derive(Clone, Copy, Debug, PartialEq, Eq, Structural)]
pub enum ParseError {
    /// The first line does not hold three whitespace-separated tokens with a
    /// path beginning with "/".
    MalformedRequestLine,
    /// A header line has no colon.
    InvalidHeaderLine,
    /// A header field name ends in whitespace directly before the colon.
    ForbiddenWhitespaceBeforeColon,
}

/// A parsed HTTP request.
pub struct Request {
    pub method: Method,
    pub path: String,
    pub version: String,
    pub body: Option<String>,
    pub headers: StringHashMap<String>,
    pub params: StringHashMap<String>,
}

/// An HTTP response under construction: body text accumulated by `send`, a
/// status code, and a header list that the serializer currently leaves out.
pub struct Response {
    pub stream: String,
    pub headers: Vec<String>,
    pub status: u16,
}

impl Response {
    pub fn new() -> (r: Response)
        ensures
            r.stream@ == Seq::<char>::empty(),
            r.headers@ == Seq::<String>::empty(),
            r.status == 200,
    {
        Response { stream: String::new(), headers: Vec::new(), status: 200 }
    }

    /// Append plain text to the response body; earlier contents are kept.
    pub fn send(&mut self, s: String)
        ensures
            final(self).stream@ == old(self).stream@ + s@,
            final(self).headers == old(self).headers,
            final(self).status == old(self).status,
    {
        self.stream.append(s.as_str());
    }

    /// Change the status code of the response.
    pub fn status(&mut self, status: u16)
        ensures
            final(self).stream == old(self).stream,
            final(self).headers == old(self).headers,
            final(self).status == status,
    {
        self.status = status;
    }
}

impl Default for Response {
    fn default() -> (r: Response)
        ensures
            r.stream@ == Seq::<char>::empty(),
            r.headers@ == Seq::<String>::empty(),
            r.status == 200,
    {
        Response::new()
    }
}

/// Body contributions accumulate: two appends, one after the other, leave
/// the first contribution followed by the second after the body text that
/// was already there.  Together with the contract of `send`, handlers that
/// append to one shared response therefore concatenate their contributions
/// in the order they run.
pub proof fn lemma_body_accumulation(
    r0: Response,
    r1: Response,
    r2: Response,
    a: Seq<char>,
    b: Seq<char>,
)
    requires
        r1.stream@ == r0.stream@ + a,
        r2.stream@ == r1.stream@ + b,
    ensures
        r2.stream@ == r0.stream@ + (a + b),
{
    assert(r0.stream@ + a + b =~= r0.stream@ + (a + b));
}

/// One CRLF line break.
pub open spec fn crlf() -> Seq<char> {
    seq!['\r', '\n']
}

/// The double CRLF that separates the header section from the body.
pub open spec fn crlf2() -> Seq<char> {
    seq!['\r', '\n', '\r', '\n']
}

/// Everything before the first double-CRLF (the whole text if there is none).
pub open spec fn head_section(s: Seq<char>) -> Seq<char> {
    match find_sub(s, crlf2()) {
        Some(i) => s.subrange(0, i),
        None => s,
    }
}

/// The first line of the header section.
pub open spec fn request_line(s: Seq<char>) -> Seq<char> {
    split_on(head_section(s), crlf())[0]
}

/// The whitespace-separated tokens of the request line.
pub open spec fn req_tokens(s: Seq<char>) -> Seq<Seq<char>> {
    ws_split(request_line(s))
}

/// The body: everything after the first double-CRLF, further double-CRLF
/// occurrences removed; absent when there is no separator or the remainder is
/// empty.
pub open spec fn body_of(s: Seq<char>) -> Option<Seq<char>> {
    match find_sub(s, crlf2()) {
        None => None,
        Some(i) => {
            let b = strip_seps(s.skip(i + 4), crlf2());
            if b.len() == 0 {
                None
            } else {
                Some(b)
            }
        },
    }
}

/// The header section's lines after the request line.
pub open spec fn header_lines(s: Seq<char>) -> Seq<Seq<char>> {
    split_on(head_section(s), crlf()).skip(1)
}

/// Fold the header lines into a map, splitting each line at its first colon
/// and trimming both sides; the first offending line decides the error.
pub open spec fn headers_from(lines: Seq<Seq<char>>, acc: Map<Seq<char>, Seq<char>>) -> Result<
    Map<Seq<char>, Seq<char>>,
    ParseError,
>
    decreases lines.len(),
{
    if lines.len() == 0 {
        Ok(acc)
    } else {
        let line = lines[0];
        match find_sub(line, seq![':']) {
            None => Err(ParseError::InvalidHeaderLine),
            Some(ci) => {
                let name_raw = line.subrange(0, ci);
                if name_raw.len() > 0 && is_space(name_raw[name_raw.len() - 1]) {
                    Err(ParseError::ForbiddenWhitespaceBeforeColon)
                } else {
                    headers_from(
                        lines.skip(1),
                        acc.insert(trimmed(name_raw), trimmed(line.skip(ci + 1))),
                    )
                }
            },
        }
    }
}

/// The header map of the request text, or the first header error.
pub open spec fn headers_of(s: Seq<char>) -> Result<Map<Seq<char>, Seq<char>>, ParseError> {
    headers_from(header_lines(s), Map::empty())
}

/// The character sequences held by a header map.
pub open spec fn string_map_view(h: &StringHashMap<String>) -> Map<Seq<char>, Seq<char>> {
    h@.map_values(|v: String| v@)
}

/// The request line holds at least three tokens and a path beginning with "/".
pub open spec fn request_line_ok(s: Seq<char>) -> bool {
    &&& req_tokens(s).len() >= 3
    &&& req_tokens(s)[1].len() > 0
    &&& req_tokens(s)[1][0] == '/'
}

/// The whole text parses into a request.
pub open spec fn parse_ok(s: Seq<char>) -> bool {
    request_line_ok(s) && headers_of(s) is Ok
}

/// The error that parsing the text reports: a bad request line wins over a bad
/// header line.
pub open spec fn parse_err(s: Seq<char>) -> ParseError {
    if !request_line_ok(s) {
        ParseError::MalformedRequestLine
    } else {
        headers_of(s)->Err_0
    }
}

/// The request-line token that names the method, mapped to its tag; an
/// unrecognized token is carried verbatim, never rejected.
pub fn parse_method(fields: &Vec<String>) -> (r: Result<Method, ParseError>)
    ensures
        r is Ok <==> fields@.len() > 0,
        r matches Ok(m) ==> method_matches_token(m, fields.deep_view()[0]),
        r matches Err(e) ==> e == ParseError::MalformedRequestLine,
{
    if fields.len() == 0 {
        return Err(ParseError::MalformedRequestLine);
    }
    let f = &fields[0];
    proof {
        assert(fields.deep_view()[0] == f@);
    }
    if str_eq(f.as_str(), "GET") {
        Ok(Method::GET)
    } else if str_eq(f.as_str(), "POST") {
        Ok(Method::POST)
    } else if str_eq(f.as_str(), "PUT") {
        Ok(Method::PUT)
    } else if str_eq(f.as_str(), "PATCH") {
        Ok(Method::PATCH)
    } else if str_eq(f.as_str(), "DELETE") {
        Ok(Method::DELETE)
    } else {
        Ok(Method::UNKNOWN(f.clone()))
    }
}

/// The request-line token that names the path; it must begin with "/".
pub fn parse_path(fields: &Vec<String>) -> (r: Result<String, ParseError>)
    ensures
        r is Ok <==> fields@.len() >= 2 && fields.deep_view()[1].len() > 0
            && fields.deep_view()[1][0] == '/',
        r matches Ok(p) ==> p@ == fields.deep_view()[1],
        r matches Err(e) ==> e == ParseError::MalformedRequestLine,
{
    if fields.len() < 2 {
        return Err(ParseError::MalformedRequestLine);
    }
    let p = &fields[1];
    proof {
        assert(fields.deep_view()[1] == p@);
    }
    if p.as_str().is_empty() {
        return Err(ParseError::MalformedRequestLine);
    }
    if p.as_str().get_char(0) != '/' {
        return Err(ParseError::MalformedRequestLine);
    }
    Ok(p.clone())
}

/// The request-line token that names the protocol version.
pub fn parse_version(fields: &Vec<String>) -> (r: Result<String, ParseError>)
    ensures
        r is Ok <==> fields@.len() >= 3,
        r matches Ok(v) ==> v@ == fields.deep_view()[2],
        r matches Err(e) ==> e == ParseError::MalformedRequestLine,
{
    if fields.len() < 3 {
        return Err(ParseError::MalformedRequestLine);
    }
    let v = &fields[2];
    proof {
        assert(fields.deep_view()[2] == v@);
    }
    Ok(v.clone())
}

/// The body of the request: what follows the first double-CRLF, absent when
/// nothing does.
pub fn parse_body(s: &str) -> (r: Option<String>)
    ensures
        r is Some <==> body_of(s@) is Some,
        r matches Some(b) ==> body_of(s@) == Some(b@),
{
    proof {
        reveal_strlit("\r\n\r\n");
        assert("\r\n\r\n"@ =~= crlf2());
    }
    let n = s.unicode_len();
    match find_str(s, "\r\n\r\n") {
        None => None,
        Some(i) => {
            proof {
                lemma_find_from_some(s@, crlf2(), 0, i as int);
            }
            let rest = s.substring_char(i + 4, n);
            let b = strip_seps_str(rest, "\r\n\r\n");
            if b.as_str().is_empty() {
                None
            } else {
                Some(b)
            }
        },
    }
}

/// A request text whose first line holds fewer than three
/// whitespace-separated tokens is rejected, and the error is the malformed
/// request line.
pub proof fn lemma_short_request_line_fails(s: Seq<char>)
    requires
        req_tokens(s).len() < 3,
    ensures
        !parse_ok(s),
        parse_err(s) == ParseError::MalformedRequestLine,
{
}

/// Every request the parser accepts satisfies the message invariant: the
/// method token is non-empty and the path token begins with "/".  A text
/// that violates it never reaches a handler; it fails to parse instead.
pub proof fn lemma_parsed_request_invariant(s: Seq<char>)
    requires
        parse_ok(s),
    ensures
        req_tokens(s)[0].len() > 0,
        req_tokens(s)[1].len() > 0,
        req_tokens(s)[1][0] == '/',
{
    crate::text::lemma_ws_split_tokens(request_line(s));
}

/// A request text with at most one double-CRLF separator, whose first line
/// holds at least three whitespace-separated tokens, the second beginning
/// with "/", and whose header lines are well formed, parses successfully;
/// the parsed path is that second token, so it begins with "/".
pub proof fn lemma_well_formed_request_parses(s: Seq<char>)
    requires
        split_on(s, crlf2()).len() <= 2,
        req_tokens(s).len() >= 3,
        req_tokens(s)[1].len() > 0,
        req_tokens(s)[1][0] == '/',
        headers_of(s) is Ok,
    ensures
        parse_ok(s),
{
}

/// The parameter bindings that a route's pattern extracts from a request
/// path: each ":"-prefixed pattern segment binds the name after the ":" to
/// the path segment in the same position.
pub fn parse_params<H>(mount: &Mount<H>, path: &str) -> (r: StringHashMap<String>)
    ensures
        string_map_view(&r) == params_of(mount.path@, path@),
{
    proof {
        reveal_strlit("/");
        assert("/"@ =~= slash());
    }
    let ps = split_on_str(mount.path.as_str(), "/");
    let xs = split_on_str(path, "/");
    let mut map = StringHashMap::<String>::new();
    let mut i: usize = 0;
    proof {
        assert(string_map_view(&map) =~= Map::<Seq<char>, Seq<char>>::empty());
        assert(ps.deep_view().skip(0) =~= ps.deep_view());
        assert(xs.deep_view().skip(0) =~= xs.deep_view());
    }
    while i < ps.len()
        invariant
            ps.deep_view() == split_on(mount.path@, slash()),
            xs.deep_view() == split_on(path@, slash()),
            i <= ps@.len(),
            params_of(mount.path@, path@) == params_from(
                ps.deep_view().skip(i as int),
                xs.deep_view().skip(vstd::math::min(i as int, xs@.len() as int)),
                string_map_view(&map),
            ),
        decreases ps@.len() - i,
    {
        let ghost psuf = ps.deep_view().skip(i as int);
        let ghost xcut = vstd::math::min(i as int, xs@.len() as int);
        let ghost xsuf = xs.deep_view().skip(xcut);
        proof {
            assert(psuf[0] == ps.deep_view()[i as int]);
            assert(psuf.skip(1) =~= ps.deep_view().skip(i as int + 1));
            if i < xs@.len() {
                assert(xsuf[0] == xs.deep_view()[i as int]);
                assert(xsuf.skip(1) =~= xs.deep_view().skip(
                    vstd::math::min(i as int + 1, xs@.len() as int),
                ));
            } else {
                assert(xsuf.len() == 0);
                assert(xsuf =~= xs.deep_view().skip(
                    vstd::math::min(i as int + 1, xs@.len() as int),
                ));
            }
        }
        let p = &ps[i];
        proof {
            assert(ps.deep_view()[i as int] == p@);
        }
        let pl = p.as_str().unicode_len();
        if pl > 0 && p.as_str().get_char(0) == ':' && i < xs.len() {
            let key = String::from_str(p.as_str().substring_char(1, pl));
            let value = xs[i].clone();
            proof {
                assert(xs.deep_view()[i as int] == value@);
                assert(key@ =~= p@.skip(1));
            }
            let ghost pre = map@;
            let ghost kview = key@;
            let ghost vview = value@;
            map.insert(key, value);
            proof {
                assert(map@.map_values(|x: String| x@) =~= pre.map_values(|x: String| x@).insert(
                    kview,
                    vview,
                ));
            }
        }
        i += 1;
    }
    proof {
        assert(ps.deep_view().skip(ps@.len() as int) =~= Seq::<Seq<char>>::empty());
    }
    map
}

/// Lines of the header section after the request line, folded into a map:
/// each line is split at its first colon, both sides are trimmed of optional
/// whitespace, and a later occurrence of a name overwrites an earlier one.
pub fn parse_headers(s: &str) -> (r: Result<StringHashMap<String>, ParseError>)
    ensures
        r is Ok <==> headers_of(s@) is Ok,
        r matches Ok(h) ==> headers_of(s@) == Ok::<Map<Seq<char>, Seq<char>>, ParseError>(
            string_map_view(&h),
        ),
        r matches Err(e) ==> headers_of(s@) == Err::<Map<Seq<char>, Seq<char>>, ParseError>(e),
{
    proof {
        reveal_strlit("\r\n\r\n");
        reveal_strlit("\r\n");
        reveal_strlit(":");
        assert("\r\n\r\n"@ =~= crlf2());
        assert("\r\n"@ =~= crlf());
        assert(":"@ =~= seq![':']);
    }
    let head = match find_str(s, "\r\n\r\n") {
        None => s,
        Some(i) => {
            proof {
                lemma_find_from_some(s@, crlf2(), 0, i as int);
            }
            s.substring_char(0, i)
        },
    };
    let lines = split_on_str(head, "\r\n");
    let mut map = StringHashMap::<String>::new();
    let mut j: usize = 1;
    proof {
        assert(string_map_view(&map) =~= Map::<Seq<char>, Seq<char>>::empty());
    }
    while j < lines.len()
        invariant
            lines@.len() >= 1,
            1 <= j <= lines@.len(),
            lines.deep_view() == split_on(head_section(s@), crlf()),
            headers_of(s@) == headers_from(lines.deep_view().skip(j as int), string_map_view(&map)),
        decreases lines@.len() - j,
    {
        let line = &lines[j];
        let ln = line.as_str().unicode_len();
        proof {
            reveal_strlit(":");
            assert(":"@ =~= seq![':']);
            assert(lines.deep_view().skip(j as int)[0] == line@);
            assert(lines.deep_view().skip(j as int).skip(1) =~= lines.deep_view().skip(
                j as int + 1,
            ));
        }
        match find_str(line.as_str(), ":") {
            None => {
                return Err(ParseError::InvalidHeaderLine);
            },
            Some(ci) => {
                proof {
                    lemma_find_from_some(line@, ":"@, 0, ci as int);
                }
                let ghost name_spec = line@.subrange(0, ci as int);
                if ci > 0 && is_space_char(line.as_str().get_char(ci - 1)) {
                    proof {
                        assert(name_spec.len() > 0 && is_space(name_spec[name_spec.len() - 1]));
                    }
                    return Err(ParseError::ForbiddenWhitespaceBeforeColon);
                }
                proof {
                    assert(!(name_spec.len() > 0 && is_space(name_spec[name_spec.len() - 1])));
                }
                let name_raw = line.as_str().substring_char(0, ci);
                let val_raw = line.as_str().substring_char(ci + 1, ln);
                let name = trim_str(name_raw);
                let value = trim_str(val_raw);
                let ghost pre = map@;
                let ghost kview = name@;
                let ghost vview = value@;
                proof {
                    assert(val_raw@ =~= line@.skip(ci as int + 1));
                }
                map.insert(name, value);
                proof {
                    assert(map@.map_values(|x: String| x@) =~= pre.map_values(
                        |x: String| x@,
                    ).insert(kview, vview));
                }
                j += 1;
            },
        }
    }
    proof {
        assert(lines.deep_view().skip(lines@.len() as int) =~= Seq::<Seq<char>>::empty());
    }
    Ok(map)
}

/// `req` is the request that the text `s` parses to: each field carries its
/// spec-pipeline value, and the route parameters are still empty.
pub open spec fn parsed_request(s: Seq<char>, req: Request) -> bool {
    &&& method_matches_token(req.method, req_tokens(s)[0])
    &&& req.path@ == req_tokens(s)[1]
    &&& req.version@ == req_tokens(s)[2]
    &&& (match req.body {
        Some(b) => body_of(s) == Some(b@),
        None => body_of(s) is None,
    })
    &&& headers_of(s) == Ok::<Map<Seq<char>, Seq<char>>, ParseError>(
        string_map_view(&req.headers),
    )
    &&& req.params@ == Map::<Seq<char>, String>::empty()
}

impl Request {
    /// Parse raw request text into a request; the route parameters start out
    /// empty and are bound later, once a matching route pattern is known.
    pub fn from_string(s: String) -> (r: Result<Request, ParseError>)
        ensures
            r is Ok <==> parse_ok(s@),
            r matches Ok(req) ==> parsed_request(s@, req),
            r matches Err(e) ==> e == parse_err(s@),
    {
        proof {
            reveal_strlit("\r\n\r\n");
            reveal_strlit("\r\n");
            assert("\r\n\r\n"@ =~= crlf2());
            assert("\r\n"@ =~= crlf());
        }
        let sref = s.as_str();
        let head = match find_str(sref, "\r\n\r\n") {
            None => sref,
            Some(i) => {
                proof {
                    lemma_find_from_some(s@, crlf2(), 0, i as int);
                }
                sref.substring_char(0, i)
            },
        };
        proof {
            assert(head@ == head_section(s@));
        }
        let first = match find_str(head, "\r\n") {
            None => head,
            Some(i) => {
                proof {
                    lemma_find_from_some(head@, crlf(), 0, i as int);
                }
                head.substring_char(0, i)
            },
        };
        proof {
            assert(first@ == request_line(s@));
        }
        let fields = ws_split_str(first);
        let path = match parse_path(&fields) {
            Ok(p) => p,
            Err(e) => {
                return Err(e);
            },
        };
        let method = match parse_method(&fields) {
            Ok(m) => m,
            Err(e) => {
                return Err(e);
            },
        };
        let version = match parse_version(&fields) {
            Ok(v) => v,
            Err(e) => {
                return Err(e);
            },
        };
        let body = parse_body(sref);
        let headers = match parse_headers(sref) {
            Ok(h) => h,
            Err(e) => {
                return Err(e);
            },
        };
        let params = StringHashMap::<String>::new();
        proof {
            assert(params@ =~= Map::<Seq<char>, String>::empty());
        }
        Ok(Request { method, path, version, body, headers, params })
    }
}

} // verus!
