//! The data model: methods, content types, headers, requests and
//! responses, together with their mathematical views.
use vstd::prelude::*;

verus! {

/// An HTTP method of the closed set this server accepts.
#[derive(Clone, Copy, Debug, PartialEq, Eq, Structural)]
pub enum Method {
    Get,
    Post,
}

/// A body content type of the closed set this server emits.
#[derive(Clone, Copy, Debug, PartialEq, Eq, Structural)]
pub enum ContentType {
    TextPlain,
    ApplicationOctetStream,
}

/// A header of the closed, whitelisted set. `AcceptEncoding` and
/// `ContentEncoding` always stand for gzip and carry no value.
#[derive(Clone, Debug)]
pub enum Header {
    ContentType(ContentType),
    ContentLength(usize),
    UserAgent(Vec<u8>),
    AcceptEncoding,
    ContentEncoding,
}

/// The mathematical value of a `Header`.
pub enum HeaderV {
    ContentType(ContentType),
    ContentLength(nat),
    UserAgent(Seq<u8>),
    AcceptEncoding,
    ContentEncoding,
}

impl View for Header {
    type V = HeaderV;

    open spec fn view(&self) -> HeaderV {
        match self {
            Header::ContentType(ct) => HeaderV::ContentType(*ct),
            Header::ContentLength(n) => HeaderV::ContentLength(*n as nat),
            Header::UserAgent(v) => HeaderV::UserAgent(v@),
            Header::AcceptEncoding => HeaderV::AcceptEncoding,
            Header::ContentEncoding => HeaderV::ContentEncoding,
        }
    }
}

/// The first line of a request: a method and a verbatim URL.
#[derive(Clone, Debug)]
pub struct RequestLine {
    pub method: Method,
    pub url: Vec<u8>,
}

/// The mathematical value of a `RequestLine`.
pub struct RequestLineV {
    pub method: Method,
    pub url: Seq<u8>,
}

impl View for RequestLine {
    type V = RequestLineV;

    open spec fn view(&self) -> RequestLineV {
        RequestLineV { method: self.method, url: self.url@ }
    }
}

/// A parsed request: request line, recognized headers in arrival order,
/// and the raw body bytes when any followed the blank line.
#[derive(Clone, Debug)]
pub struct Request {
    pub line: RequestLine,
    pub headers: Vec<Header>,
    pub body: Option<Vec<u8>>,
}

/// The mathematical value of a `Request`.
pub struct RequestV {
    pub line: RequestLineV,
    pub headers: Seq<HeaderV>,
    pub body: Option<Seq<u8>>,
}

/// The views of a sequence of headers.
pub open spec fn headers_view(hs: Seq<Header>) -> Seq<HeaderV> {
    hs.map_values(|h: Header| h@)
}

/// The view of an optional byte vector.
pub open spec fn body_view(b: Option<Vec<u8>>) -> Option<Seq<u8>> {
    match b {
        Some(v) => Some(v@),
        None => None,
    }
}

impl View for Request {
    type V = RequestV;

    open spec fn view(&self) -> RequestV {
        RequestV {
            line: self.line@,
            headers: headers_view(self.headers@),
            body: body_view(self.body),
        }
    }
}

/// A response under construction: status code, headers in emission
/// order, and an optional body.
#[derive(Clone, Debug)]
pub struct Response {
    pub status_code: u32,
    pub headers: Vec<Header>,
    pub body: Option<Vec<u8>>,
}

/// The mathematical value of a `Response`.
pub struct ResponseV {
    pub status_code: u32,
    pub headers: Seq<HeaderV>,
    pub body: Option<Seq<u8>>,
}

impl View for Response {
    type V = ResponseV;

    open spec fn view(&self) -> ResponseV {
        ResponseV {
            status_code: self.status_code,
            headers: headers_view(self.headers@),
            body: body_view(self.body),
        }
    }
}

/// Whether some header of `hs` is `AcceptEncoding`: the whole of the
/// content negotiation this server performs.
pub open spec fn has_accept_encoding(hs: Seq<HeaderV>) -> bool {
    exists|i: int| 0 <= i < hs.len() && hs[i] is AcceptEncoding
}

/// Whether some header of `hs` is `ContentEncoding`.
pub open spec fn has_content_encoding(hs: Seq<HeaderV>) -> bool {
    exists|i: int| 0 <= i < hs.len() && hs[i] is ContentEncoding
}

/// The value of the first `UserAgent` header of `hs`, if any.
pub open spec fn first_user_agent(hs: Seq<HeaderV>) -> Option<Seq<u8>>
    decreases hs.len(),
{
    if hs.len() == 0 {
        None
    } else if hs[0] is UserAgent {
        Some(hs[0]->UserAgent_0)
    } else {
        first_user_agent(hs.drop_first())
    }
}

/// The index of the first `ContentLength` header of `hs`, or `hs.len()`
/// when there is none.
pub open spec fn first_content_length_index(hs: Seq<HeaderV>) -> int
    decreases hs.len(),
{
    if hs.len() == 0 {
        0
    } else if hs[0] is ContentLength {
        0
    } else {
        1 + first_content_length_index(hs.drop_first())
    }
}

/// Headers this server ever places in a response; the serializer knows
/// how to render exactly these.
pub open spec fn emittable(h: HeaderV) -> bool {
    h is ContentType || h is ContentLength || h is ContentEncoding
}

/// Well-formedness of a response between construction and
/// serialization: the status code is one of the three implemented ones,
/// every header can be rendered, a response with a body carries exactly
/// one `ContentLength` header and it equals the byte length of the
/// body, and a response without a body carries none.
pub open spec fn resp_wf(r: ResponseV) -> bool {
    &&& (r.status_code == 200 || r.status_code == 201 || r.status_code == 404)
    &&& (forall|i: int| 0 <= i < r.headers.len() ==> emittable(#[trigger] r.headers[i]))
    &&& match r.body {
        Some(b) => {
            &&& (exists|i: int| 0 <= i < r.headers.len() && r.headers[i] is ContentLength)
            &&& (forall|i: int, j: int|
                0 <= i < r.headers.len() && 0 <= j < r.headers.len() && r.headers[i] is ContentLength
                    && r.headers[j] is ContentLength ==> i == j)
            &&& (forall|i: int|
                0 <= i < r.headers.len() && r.headers[i] is ContentLength
                    ==> r.headers[i]->ContentLength_0 == b.len())
        },
        None => forall|i: int| 0 <= i < r.headers.len() ==> !(r.headers[i] is ContentLength),
    }
}

} // verus!
