//! The router and the per-connection pipeline: a request is matched
//! against the fixed route table, the one file-gateway call (if any)
//! is handed out as an action for the caller to perform, and the
//! resulting response is compressed when negotiated and serialized.
use vstd::prelude::*;

use crate::bytes::copy_range;
use crate::http::{
    body_view, first_user_agent, has_accept_encoding, has_content_encoding, headers_view, resp_wf,
    Header, HeaderV, Method, Request, RequestV, Response, ResponseV,
};
use crate::parse::{parse, spec_parse};
use crate::response::{
    compressed_v, created_v, empty_v, not_found_v, octet_v, text_v, wire_of,
};

verus! {

/// What the router decides for one request: a finished response, one
/// file-gateway read or write still to perform, or a rejection that
/// closes the connection with no response written.
pub enum RouteOutcome {
    Ready(Response),
    ReadFile(Vec<u8>),
    WriteFile(Vec<u8>, Vec<u8>),
    Reject,
}

/// The mathematical value of a `RouteOutcome`.
pub enum RouteOutcomeV {
    Ready(ResponseV),
    ReadFile(Seq<u8>),
    WriteFile(Seq<u8>, Seq<u8>),
    Reject,
}

impl View for RouteOutcome {
    type V = RouteOutcomeV;

    open spec fn view(&self) -> RouteOutcomeV {
        match self {
            RouteOutcome::Ready(r) => RouteOutcomeV::Ready(r@),
            RouteOutcome::ReadFile(n) => RouteOutcomeV::ReadFile(n@),
            RouteOutcome::WriteFile(n, b) => RouteOutcomeV::WriteFile(n@, b@),
            RouteOutcome::Reject => RouteOutcomeV::Reject,
        }
    }
}

/// What the caller must do for one connection: write wire bytes back,
/// perform a file-gateway read or write first, or close with nothing
/// written.
pub enum Action {
    Respond(Vec<u8>),
    ReadFile(Vec<u8>, bool),
    WriteFile(Vec<u8>, Vec<u8>, bool),
    Close,
}

/// The mathematical value of an `Action`.
pub enum ActionV {
    Respond(Seq<u8>),
    ReadFile(Seq<u8>, bool),
    WriteFile(Seq<u8>, Seq<u8>, bool),
    Close,
}

impl View for Action {
    type V = ActionV;

    open spec fn view(&self) -> ActionV {
        match self {
            Action::Respond(w) => ActionV::Respond(w@),
            Action::ReadFile(n, g) => ActionV::ReadFile(n@, *g),
            Action::WriteFile(n, b, g) => ActionV::WriteFile(n@, b@, *g),
            Action::Close => ActionV::Close,
        }
    }
}

/// The bytes of `/`.
pub open spec fn root_path() -> Seq<u8> {
    seq![47u8]
}

/// The bytes of `/user-agent`.
pub open spec fn user_agent_path() -> Seq<u8> {
    seq![47u8, 117u8, 115u8, 101u8, 114u8, 45u8, 97u8, 103u8, 101u8, 110u8, 116u8]
}

/// The bytes of `/echo/`.
pub open spec fn echo_prefix() -> Seq<u8> {
    seq![47u8, 101u8, 99u8, 104u8, 111u8, 47u8]
}

/// The bytes of `/files/`.
pub open spec fn files_prefix() -> Seq<u8> {
    seq![47u8, 102u8, 105u8, 108u8, 101u8, 115u8, 47u8]
}

/// Whether `p` is a prefix of `s`.
pub open spec fn has_prefix(s: Seq<u8>, p: Seq<u8>) -> bool {
    p.len() <= s.len() && s.subrange(0, p.len() as int) == p
}

/// A filename the gateway may be asked about: non-empty, free of path
/// separators, and neither `.` nor `..`, so it cannot leave the
/// gateway's directory.
pub open spec fn valid_filename(name: Seq<u8>) -> bool {
    &&& name.len() > 0
    &&& (forall|i: int| 0 <= i < name.len() ==> name[i] != 47 && name[i] != 92)
    &&& name != seq![46u8]
    &&& name != seq![46u8, 46u8]
}

/// The route table. `/` answers 200 with nothing else; `/user-agent`
/// echoes the first `UserAgent` header and rejects a request without
/// one; `/echo/<suffix>` answers the suffix verbatim as text;
/// `/files/<name>` defers to the file gateway, reading under GET and
/// writing the request body under POST (a missing body or an unsafe
/// filename under POST is a rejection; an unsafe filename under GET is
/// answered not-found); every other URL is answered not-found.
pub open spec fn spec_route(req: RequestV) -> RouteOutcomeV {
    let url = req.line.url;
    if url == root_path() {
        RouteOutcomeV::Ready(empty_v())
    } else if url == user_agent_path() {
        match first_user_agent(req.headers) {
            Some(ua) => RouteOutcomeV::Ready(text_v(ua)),
            None => RouteOutcomeV::Reject,
        }
    } else if has_prefix(url, echo_prefix()) {
        RouteOutcomeV::Ready(text_v(url.subrange(echo_prefix().len() as int, url.len() as int)))
    } else if has_prefix(url, files_prefix()) {
        let name = url.subrange(files_prefix().len() as int, url.len() as int);
        match req.line.method {
            Method::Get => if valid_filename(name) {
                RouteOutcomeV::ReadFile(name)
            } else {
                RouteOutcomeV::Ready(not_found_v())
            },
            Method::Post => match req.body {
                Some(b) => if valid_filename(name) {
                    RouteOutcomeV::WriteFile(name, b)
                } else {
                    RouteOutcomeV::Reject
                },
                None => RouteOutcomeV::Reject,
            },
        }
    } else {
        RouteOutcomeV::Ready(not_found_v())
    }
}

/// The response to a file-gateway read: the file bytes as an
/// octet-stream on success, not-found on any failure.
pub open spec fn spec_file_response(contents: Option<Seq<u8>>) -> ResponseV {
    match contents {
        Some(b) => octet_v(b),
        None => not_found_v(),
    }
}

/// The wire bytes of a response once content negotiation is settled:
/// the response itself, or its compressed form when the request asked
/// for gzip.
pub open spec fn spec_finish(r: ResponseV, wants_gzip: bool) -> Seq<u8> {
    if wants_gzip {
        wire_of(compressed_v(r))
    } else {
        wire_of(r)
    }
}

/// The action for one raw request buffer: close on a request-line
/// failure or a rejection, otherwise the finished wire bytes, or the
/// file-gateway call still to perform together with the negotiated
/// gzip flag.
pub open spec fn spec_handle(s: Seq<u8>) -> ActionV {
    match spec_parse(s) {
        None => ActionV::Close,
        Some(req) => {
            let wants = has_accept_encoding(req.headers);
            match spec_route(req) {
                RouteOutcomeV::Ready(r) => ActionV::Respond(spec_finish(r, wants)),
                RouteOutcomeV::ReadFile(name) => ActionV::ReadFile(name, wants),
                RouteOutcomeV::WriteFile(name, b) => ActionV::WriteFile(name, b, wants),
                RouteOutcomeV::Reject => ActionV::Close,
            }
        },
    }
}

fn root_path_vec() -> (r: Vec<u8>)
    ensures
        r@ == root_path(),
{
    let mut v: Vec<u8> = Vec::new();
    v.push(47);
    assert(v@ =~= root_path());
    v
}

fn user_agent_path_vec() -> (r: Vec<u8>)
    ensures
        r@ == user_agent_path(),
{
    let mut v: Vec<u8> = Vec::new();
    v.push(47);
    v.push(117);
    v.push(115);
    v.push(101);
    v.push(114);
    v.push(45);
    v.push(97);
    v.push(103);
    v.push(101);
    v.push(110);
    v.push(116);
    assert(v@ =~= user_agent_path());
    v
}

fn echo_prefix_vec() -> (r: Vec<u8>)
    ensures
        r@ == echo_prefix(),
{
    let mut v: Vec<u8> = Vec::new();
    v.push(47);
    v.push(101);
    v.push(99);
    v.push(104);
    v.push(111);
    v.push(47);
    assert(v@ =~= echo_prefix());
    v
}

fn files_prefix_vec() -> (r: Vec<u8>)
    ensures
        r@ == files_prefix(),
{
    let mut v: Vec<u8> = Vec::new();
    v.push(47);
    v.push(102);
    v.push(105);
    v.push(108);
    v.push(101);
    v.push(115);
    v.push(47);
    assert(v@ =~= files_prefix());
    v
}

fn vec_eq(a: &Vec<u8>, b: &Vec<u8>) -> (r: bool)
    ensures
        r == (a@ == b@),
{
    if a.len() != b.len() {
        return false;
    }
    let mut i: usize = 0;
    while i < a.len()
        invariant
            0 <= i <= a@.len(),
            a@.len() == b@.len(),
            forall|j: int| 0 <= j < i ==> a@[j] == b@[j],
        decreases a@.len() - i,
    {
        if a[i] != b[i] {
            return false;
        }
        i += 1;
    }
    assert(a@ =~= b@);
    true
}

fn vec_has_prefix(a: &Vec<u8>, p: &Vec<u8>) -> (r: bool)
    ensures
        r == has_prefix(a@, p@),
{
    if p.len() > a.len() {
        return false;
    }
    let mut i: usize = 0;
    while i < p.len()
        invariant
            0 <= i <= p@.len(),
            p@.len() <= a@.len(),
            forall|j: int| 0 <= j < i ==> a@[j] == p@[j],
        decreases p@.len() - i,
    {
        if a[i] != p[i] {
            assert(a@.subrange(0, p@.len() as int)[i as int] != p@[i as int]);
            return false;
        }
        i += 1;
    }
    assert(a@.subrange(0, p@.len() as int) =~= p@);
    true
}

fn filename_ok(name: &Vec<u8>) -> (r: bool)
    ensures
        r == valid_filename(name@),
{
    if name.len() == 0 {
        return false;
    }
    let mut i: usize = 0;
    while i < name.len()
        invariant
            0 <= i <= name@.len(),
            forall|j: int| 0 <= j < i ==> name@[j] != 47 && name@[j] != 92,
        decreases name@.len() - i,
    {
        if name[i] == 47 || name[i] == 92 {
            return false;
        }
        i += 1;
    }
    if name.len() == 1 && name[0] == 46 {
        assert(name@ =~= seq![46u8]);
        return false;
    }
    if name.len() == 2 && name[0] == 46 && name[1] == 46 {
        assert(name@ =~= seq![46u8, 46u8]);
        return false;
    }
    proof {
        if name@ == seq![46u8] {
            assert(name@[0] == 46u8);
            assert(false);
        }
        if name@ == seq![46u8, 46u8] {
            assert(name@[0] == 46u8 && name@[1] == 46u8);
            assert(false);
        }
    }
    true
}

fn find_user_agent(headers: &Vec<Header>) -> (r: Option<Vec<u8>>)
    ensures
        match r {
            Some(v) => first_user_agent(headers_view(headers@)) == Some(v@),
            None => first_user_agent(headers_view(headers@)) is None,
        },
{
    let ghost hv = headers_view(headers@);
    proof {
        assert(hv.skip(0) =~= hv);
    }
    let mut i: usize = 0;
    while i < headers.len()
        invariant
            0 <= i <= headers@.len(),
            hv == headers_view(headers@),
            first_user_agent(hv) == first_user_agent(hv.skip(i as int)),
        decreases headers@.len() - i,
    {
        match &headers[i] {
            Header::UserAgent(v) => {
                let value = copy_range(v.as_slice(), 0, v.len());
                proof {
                    assert(hv.skip(i as int)[0] == hv[i as int]);
                    assert(value@ =~= v@);
                }
                return Some(value);
            },
            _ => {
                proof {
                    assert(hv.skip(i as int)[0] == hv[i as int]);
                    assert(hv.skip(i as int).drop_first() =~= hv.skip(i + 1 as int));
                }
            },
        }
        i += 1;
    }
    assert(hv.skip(i as int) =~= Seq::<HeaderV>::empty());
    None
}

/// Whether the request carries an `AcceptEncoding` header: gzip was
/// asked for.
pub fn accepts_gzip(req: &Request) -> (r: bool)
    ensures
        r == has_accept_encoding(req@.headers),
{
    let ghost hv = req@.headers;
    let mut i: usize = 0;
    while i < req.headers.len()
        invariant
            0 <= i <= req.headers@.len(),
            hv == headers_view(req.headers@),
            forall|j: int| 0 <= j < i ==> !(hv[j] is AcceptEncoding),
        decreases req.headers@.len() - i,
    {
        match &req.headers[i] {
            Header::AcceptEncoding => {
                assert(hv[i as int] is AcceptEncoding);
                return true;
            },
            _ => {},
        }
        i += 1;
    }
    false
}

/// Routes one parsed request, exactly as `spec_route` describes. A
/// `Ready` outcome is well-formed and carries no `ContentEncoding`
/// header yet, so the compression step may still be applied to it.
pub fn route(req: Request) -> (r: RouteOutcome)
    ensures
        r@ == spec_route(req@),
        r@ matches RouteOutcomeV::Ready(resp) ==> resp_wf(resp) && !has_content_encoding(
            resp.headers,
        ),
{
    let Request { line, headers, body } = req;
    let url = line.url;
    let root = root_path_vec();
    let uap = user_agent_path_vec();
    let echo = echo_prefix_vec();
    let files = files_prefix_vec();
    if vec_eq(&url, &root) {
        RouteOutcome::Ready(Response::empty())
    } else if vec_eq(&url, &uap) {
        match find_user_agent(&headers) {
            Some(v) => RouteOutcome::Ready(Response::text(v)),
            None => RouteOutcome::Reject,
        }
    } else if vec_has_prefix(&url, &echo) {
        let suffix = copy_range(url.as_slice(), echo.len(), url.len());
        RouteOutcome::Ready(Response::text(suffix))
    } else if vec_has_prefix(&url, &files) {
        let name = copy_range(url.as_slice(), files.len(), url.len());
        match line.method {
            Method::Get => {
                if filename_ok(&name) {
                    RouteOutcome::ReadFile(name)
                } else {
                    RouteOutcome::Ready(Response::not_found())
                }
            },
            Method::Post => {
                match body {
                    Some(b) => {
                        if filename_ok(&name) {
                            RouteOutcome::WriteFile(name, b)
                        } else {
                            RouteOutcome::Reject
                        }
                    },
                    None => RouteOutcome::Reject,
                }
            },
        }
    } else {
        RouteOutcome::Ready(Response::not_found())
    }
}

/// Compresses the response when gzip was negotiated, then serializes
/// it: the wire bytes of `spec_finish`.
pub fn finish_response(resp: Response, wants_gzip: bool) -> (wire: Vec<u8>)
    requires
        resp_wf(resp@),
        !has_content_encoding(resp@.headers),
    ensures
        wire@ == spec_finish(resp@, wants_gzip),
{
    let ghost pre = resp@;
    let resp = if wants_gzip {
        resp.compressed()
    } else {
        resp
    };
    let mut wire: Vec<u8> = Vec::new();
    resp.write_to(&mut wire);
    assert(wire@ =~= spec_finish(pre, wants_gzip));
    wire
}

/// Builds the response to a file-gateway read (octet-stream on
/// success, not-found on failure) and finishes it under the
/// negotiated gzip flag.
pub fn file_read_response(contents: Option<Vec<u8>>, wants_gzip: bool) -> (wire: Vec<u8>)
    ensures
        wire@ == spec_finish(spec_file_response(body_view(contents)), wants_gzip),
{
    let resp = match contents {
        Some(c) => Response::file_found(c),
        None => Response::not_found(),
    };
    proof {
        assert(!has_content_encoding(resp@.headers));
    }
    finish_response(resp, wants_gzip)
}

/// Builds the response to a file-gateway write: the finished created
/// response when the write succeeded, `None` when it failed, in which
/// case the connection is closed with no response written.
pub fn file_write_response(ok: bool, wants_gzip: bool) -> (r: Option<Vec<u8>>)
    ensures
        match r {
            Some(wire) => ok && wire@ == spec_finish(created_v(), wants_gzip),
            None => !ok,
        },
{
    if ok {
        Some(finish_response(Response::created(), wants_gzip))
    } else {
        None
    }
}

/// The whole per-connection decision on one raw request buffer,
/// exactly as `spec_handle` describes. The result depends on these
/// bytes alone, so connections handled in parallel cannot affect one
/// another's responses.
pub fn handle_request(input: &[u8]) -> (a: Action)
    ensures
        a@ == spec_handle(input@),
{
    match parse(input) {
        Err(_) => Action::Close,
        Ok(req) => {
            let wants = accepts_gzip(&req);
            match route(req) {
                RouteOutcome::Ready(resp) => Action::Respond(finish_response(resp, wants)),
                RouteOutcome::ReadFile(name) => Action::ReadFile(name, wants),
                RouteOutcome::WriteFile(name, b) => Action::WriteFile(name, b, wants),
                RouteOutcome::Reject => Action::Close,
            }
        },
    }
}

/// Any request whose URL is `/` is answered 200 with no headers and
/// no body, whatever its method, headers and body.
pub proof fn lemma_root_route(req: RequestV)
    requires
        req.line.url == root_path(),
    ensures
        spec_route(req) == RouteOutcomeV::Ready(empty_v()),
{
}

/// Any request whose URL matches none of the routes is answered 404
/// with no headers and no body.
pub proof fn lemma_unmatched_not_found(req: RequestV)
    requires
        req.line.url != root_path(),
        req.line.url != user_agent_path(),
        !has_prefix(req.line.url, echo_prefix()),
        !has_prefix(req.line.url, files_prefix()),
    ensures
        spec_route(req) == RouteOutcomeV::Ready(not_found_v()),
{
}

/// The compression step always leaves a `ContentEncoding` header in
/// place: a response negotiated as gzip advertises its encoding.
pub proof fn lemma_compressed_has_encoding(r: ResponseV)
    ensures
        has_content_encoding(compressed_v(r).headers),
{
    let nh = compressed_v(r).headers;
    assert(nh[nh.len() - 1] is ContentEncoding);
}

/// The files round trip: a POST to `/files/<name>` with body `b` asks
/// the gateway to store exactly `b` under `name`, a GET for the same
/// URL asks it to read `name` back, and once the gateway returns the
/// stored bytes the GET is answered 200 with body `b`, byte-exact.
pub proof fn lemma_files_round_trip(post: RequestV, get: RequestV, name: Seq<u8>, b: Seq<u8>)
    requires
        valid_filename(name),
        post.line.method == Method::Post,
        post.line.url == files_prefix() + name,
        post.body == Some(b),
        get.line.method == Method::Get,
        get.line.url == files_prefix() + name,
    ensures
        spec_route(post) == RouteOutcomeV::WriteFile(name, b),
        spec_route(get) == RouteOutcomeV::ReadFile(name),
        spec_file_response(Some(b)).status_code == 200,
        spec_file_response(Some(b)).body == Some(b),
{
    let url = files_prefix() + name;
    assert(url.len() == 7 + name.len());
    assert(url[1] == 102);
    if has_prefix(url, echo_prefix()) {
        assert(url.subrange(0, 6)[1] == url[1]);
        assert(false);
    }
    assert(url != user_agent_path());
    assert(url.subrange(0, 7) =~= files_prefix());
    assert(url.subrange(7, url.len() as int) =~= name);
}

} // verus!
