//! The response model: constructors, the gzip compression step, and
//! the wire serializer, each against an exact byte-level description.
use vstd::prelude::*;

use crate::bytes::{dec_rep, push_all, push_decimal};
use crate::gzip::{gzip_compress, gzip_of};
use crate::http::{
    emittable, first_content_length_index, has_content_encoding, headers_view, resp_wf,
    ContentType, Header, HeaderV, Response, ResponseV,
};

verus! {

/// The CRLF line terminator.
pub open spec fn crlf() -> Seq<u8> {
    seq![13u8, 10u8]
}

/// The bytes of `HTTP/1.1 `, which open every status line.
pub open spec fn http_prefix() -> Seq<u8> {
    seq![72u8, 84u8, 84u8, 80u8, 47u8, 49u8, 46u8, 49u8, 32u8]
}

/// The status text for the three implemented codes: `200 OK`,
/// `201 Created`, `404 Not Found`. Any other code has no wire form;
/// the serializer's precondition keeps it out.
pub open spec fn status_text(code: u32) -> Seq<u8> {
    if code == 200 {
        seq![50u8, 48u8, 48u8, 32u8, 79u8, 75u8]
    } else if code == 201 {
        seq![50u8, 48u8, 49u8, 32u8, 67u8, 114u8, 101u8, 97u8, 116u8, 101u8, 100u8]
    } else if code == 404 {
        seq![52u8, 48u8, 52u8, 32u8, 78u8, 111u8, 116u8, 32u8, 70u8, 111u8, 117u8, 110u8, 100u8]
    } else {
        Seq::empty()
    }
}

/// The bytes of `Content-Type: `.
pub open spec fn content_type_prefix() -> Seq<u8> {
    seq![67u8, 111u8, 110u8, 116u8, 101u8, 110u8, 116u8, 45u8, 84u8, 121u8, 112u8, 101u8, 58u8,
        32u8]
}

/// The bytes of `text/plain`.
pub open spec fn text_plain_bytes() -> Seq<u8> {
    seq![116u8, 101u8, 120u8, 116u8, 47u8, 112u8, 108u8, 97u8, 105u8, 110u8]
}

/// The bytes of `application/octet-stream`.
pub open spec fn octet_stream_bytes() -> Seq<u8> {
    seq![97u8, 112u8, 112u8, 108u8, 105u8, 99u8, 97u8, 116u8, 105u8, 111u8, 110u8, 47u8, 111u8,
        99u8, 116u8, 101u8, 116u8, 45u8, 115u8, 116u8, 114u8, 101u8, 97u8, 109u8]
}

/// The value bytes of a content type.
pub open spec fn content_type_bytes(ct: ContentType) -> Seq<u8> {
    match ct {
        ContentType::TextPlain => text_plain_bytes(),
        ContentType::ApplicationOctetStream => octet_stream_bytes(),
    }
}

/// The bytes of `Content-Length: `.
pub open spec fn content_length_prefix() -> Seq<u8> {
    seq![67u8, 111u8, 110u8, 116u8, 101u8, 110u8, 116u8, 45u8, 76u8, 101u8, 110u8, 103u8, 116u8,
        104u8, 58u8, 32u8]
}

/// The bytes of `Content-Encoding: gzip`.
pub open spec fn content_encoding_line() -> Seq<u8> {
    seq![67u8, 111u8, 110u8, 116u8, 101u8, 110u8, 116u8, 45u8, 69u8, 110u8, 99u8, 111u8, 100u8,
        105u8, 110u8, 103u8, 58u8, 32u8, 103u8, 122u8, 105u8, 112u8]
}

/// One header as it stands on the wire, CRLF included. Only the
/// emittable headers have a wire form.
pub open spec fn header_line(h: HeaderV) -> Seq<u8> {
    match h {
        HeaderV::ContentType(ct) => content_type_prefix() + content_type_bytes(ct) + crlf(),
        HeaderV::ContentLength(n) => content_length_prefix() + dec_rep(n) + crlf(),
        HeaderV::ContentEncoding => content_encoding_line() + crlf(),
        HeaderV::UserAgent(_) => Seq::empty(),
        HeaderV::AcceptEncoding => Seq::empty(),
    }
}

/// The headers of a response, rendered in storage order.
pub open spec fn header_block(hs: Seq<HeaderV>) -> Seq<u8>
    decreases hs.len(),
{
    if hs.len() == 0 {
        Seq::empty()
    } else {
        header_line(hs[0]) + header_block(hs.drop_first())
    }
}

/// The body on the wire: its bytes, or nothing.
pub open spec fn body_bytes(b: Option<Seq<u8>>) -> Seq<u8> {
    match b {
        Some(bs) => bs,
        None => Seq::empty(),
    }
}

/// The whole response on the wire: status line, headers in storage
/// order, a blank line, then the raw body.
pub open spec fn wire_of(r: ResponseV) -> Seq<u8> {
    http_prefix() + status_text(r.status_code) + crlf() + header_block(r.headers) + crlf()
        + body_bytes(r.body)
}

/// The value a response takes after the compression step: a
/// `ContentEncoding` header is appended; when a body exists it is
/// replaced by its gzip form and the `ContentLength` header is set to
/// the new byte length.
pub open spec fn compressed_v(r: ResponseV) -> ResponseV {
    match r.body {
        Some(b) => ResponseV {
            status_code: r.status_code,
            headers: r.headers.update(
                first_content_length_index(r.headers),
                HeaderV::ContentLength(gzip_of(b).len()),
            ).push(HeaderV::ContentEncoding),
            body: Some(gzip_of(b)),
        },
        None => ResponseV {
            status_code: r.status_code,
            headers: r.headers.push(HeaderV::ContentEncoding),
            body: None,
        },
    }
}

/// The bare success response: 200, no headers, no body.
pub open spec fn empty_v() -> ResponseV {
    ResponseV { status_code: 200u32, headers: Seq::empty(), body: None }
}

/// The not-found response: 404, no headers, no body.
pub open spec fn not_found_v() -> ResponseV {
    ResponseV { status_code: 404u32, headers: Seq::empty(), body: None }
}

/// The created response: 201, no headers, no body.
pub open spec fn created_v() -> ResponseV {
    ResponseV { status_code: 201u32, headers: Seq::empty(), body: None }
}

/// A plain-text success response carrying `b`.
pub open spec fn text_v(b: Seq<u8>) -> ResponseV {
    ResponseV {
        status_code: 200u32,
        headers: seq![
            HeaderV::ContentType(ContentType::TextPlain),
            HeaderV::ContentLength(b.len()),
        ],
        body: Some(b),
    }
}

/// An octet-stream success response carrying `b`.
pub open spec fn octet_v(b: Seq<u8>) -> ResponseV {
    ResponseV {
        status_code: 200u32,
        headers: seq![
            HeaderV::ContentType(ContentType::ApplicationOctetStream),
            HeaderV::ContentLength(b.len()),
        ],
        body: Some(b),
    }
}

pub proof fn lemma_header_block_push(hs: Seq<HeaderV>, h: HeaderV)
    ensures
        header_block(hs.push(h)) == header_block(hs) + header_line(h),
    decreases hs.len(),
{
    if hs.len() == 0 {
        assert(hs.push(h)[0] == h);
        assert(hs.push(h).drop_first() =~= Seq::<HeaderV>::empty());
        assert(header_block(hs.push(h)) == header_line(h) + header_block(
            Seq::<HeaderV>::empty(),
        ));
        assert(header_block(hs.push(h)) =~= header_block(hs) + header_line(h));
    } else {
        lemma_header_block_push(hs.drop_first(), h);
        assert(hs.push(h)[0] == hs[0]);
        assert(hs.push(h).drop_first() =~= hs.drop_first().push(h));
        assert(header_block(hs.push(h)) == header_line(hs[0]) + header_block(
            hs.drop_first().push(h),
        ));
        assert(header_block(hs.push(h)) =~= header_block(hs) + header_line(h));
    }
}

fn push_crlf(out: &mut Vec<u8>)
    ensures
        final(out)@ == old(out)@ + crlf(),
{
    out.push(13);
    out.push(10);
    assert(out@ =~= old(out)@ + crlf());
}

fn push_http_prefix(out: &mut Vec<u8>)
    ensures
        final(out)@ == old(out)@ + http_prefix(),
{
    out.push(72);
    out.push(84);
    out.push(84);
    out.push(80);
    out.push(47);
    out.push(49);
    out.push(46);
    out.push(49);
    out.push(32);
    assert(out@ =~= old(out)@ + http_prefix());
}

fn push_status_text(out: &mut Vec<u8>, code: u32)
    requires
        code == 200 || code == 201 || code == 404,
    ensures
        final(out)@ == old(out)@ + status_text(code),
{
    if code == 200 {
        out.push(50);
        out.push(48);
        out.push(48);
        out.push(32);
        out.push(79);
        out.push(75);
        assert(out@ =~= old(out)@ + status_text(code));
    } else if code == 201 {
        out.push(50);
        out.push(48);
        out.push(49);
        out.push(32);
        out.push(67);
        out.push(114);
        out.push(101);
        out.push(97);
        out.push(116);
        out.push(101);
        out.push(100);
        assert(out@ =~= old(out)@ + status_text(code));
    } else {
        out.push(52);
        out.push(48);
        out.push(52);
        out.push(32);
        out.push(78);
        out.push(111);
        out.push(116);
        out.push(32);
        out.push(70);
        out.push(111);
        out.push(117);
        out.push(110);
        out.push(100);
        assert(out@ =~= old(out)@ + status_text(code));
    }
}

fn push_content_type(out: &mut Vec<u8>, ct: ContentType)
    ensures
        final(out)@ == old(out)@ + content_type_prefix() + content_type_bytes(ct),
{
    out.push(67);
    out.push(111);
    out.push(110);
    out.push(116);
    out.push(101);
    out.push(110);
    out.push(116);
    out.push(45);
    out.push(84);
    out.push(121);
    out.push(112);
    out.push(101);
    out.push(58);
    out.push(32);
    assert(out@ =~= old(out)@ + content_type_prefix());
    match ct {
        ContentType::TextPlain => {
            out.push(116);
            out.push(101);
            out.push(120);
            out.push(116);
            out.push(47);
            out.push(112);
            out.push(108);
            out.push(97);
            out.push(105);
            out.push(110);
        },
        ContentType::ApplicationOctetStream => {
            out.push(97);
            out.push(112);
            out.push(112);
            out.push(108);
            out.push(105);
            out.push(99);
            out.push(97);
            out.push(116);
            out.push(105);
            out.push(111);
            out.push(110);
            out.push(47);
            out.push(111);
            out.push(99);
            out.push(116);
            out.push(101);
            out.push(116);
            out.push(45);
            out.push(115);
            out.push(116);
            out.push(114);
            out.push(101);
            out.push(97);
            out.push(109);
        },
    }
    assert(out@ =~= old(out)@ + content_type_prefix() + content_type_bytes(ct));
}

fn push_content_length_prefix(out: &mut Vec<u8>)
    ensures
        final(out)@ == old(out)@ + content_length_prefix(),
{
    out.push(67);
    out.push(111);
    out.push(110);
    out.push(116);
    out.push(101);
    out.push(110);
    out.push(116);
    out.push(45);
    out.push(76);
    out.push(101);
    out.push(110);
    out.push(103);
    out.push(116);
    out.push(104);
    out.push(58);
    out.push(32);
    assert(out@ =~= old(out)@ + content_length_prefix());
}

fn push_content_encoding_line(out: &mut Vec<u8>)
    ensures
        final(out)@ == old(out)@ + content_encoding_line(),
{
    out.push(67);
    out.push(111);
    out.push(110);
    out.push(116);
    out.push(101);
    out.push(110);
    out.push(116);
    out.push(45);
    out.push(69);
    out.push(110);
    out.push(99);
    out.push(111);
    out.push(100);
    out.push(105);
    out.push(110);
    out.push(103);
    out.push(58);
    out.push(32);
    out.push(103);
    out.push(122);
    out.push(105);
    out.push(112);
    assert(out@ =~= old(out)@ + content_encoding_line());
}

fn push_header(out: &mut Vec<u8>, h: &Header)
    requires
        emittable(h@),
    ensures
        final(out)@ == old(out)@ + header_line(h@),
{
    match h {
        Header::ContentType(ct) => {
            push_content_type(out, *ct);
            push_crlf(out);
            assert(out@ =~= old(out)@ + header_line(h@));
        },
        Header::ContentLength(n) => {
            push_content_length_prefix(out);
            push_decimal(out, *n as u64);
            push_crlf(out);
            assert(out@ =~= old(out)@ + header_line(h@));
        },
        Header::ContentEncoding => {
            push_content_encoding_line(out);
            push_crlf(out);
            assert(out@ =~= old(out)@ + header_line(h@));
        },
        Header::UserAgent(_) => {
            proof {
                assert(false);
            }
        },
        Header::AcceptEncoding => {
            proof {
                assert(false);
            }
        },
    }
}

impl Response {
    /// The bare success response: 200, no headers, no body.
    pub fn empty() -> (r: Response)
        ensures
            r@ == empty_v(),
            resp_wf(r@),
    {
        let r = Response { status_code: 200, headers: Vec::new(), body: None };
        proof {
            assert(headers_view(Seq::<Header>::empty()) =~= Seq::<HeaderV>::empty());
        }
        r
    }

    /// The not-found response: 404, no headers, no body.
    pub fn not_found() -> (r: Response)
        ensures
            r@ == not_found_v(),
            resp_wf(r@),
    {
        let r = Response { status_code: 404, headers: Vec::new(), body: None };
        proof {
            assert(headers_view(Seq::<Header>::empty()) =~= Seq::<HeaderV>::empty());
        }
        r
    }

    /// The created response: 201, no headers, no body.
    pub fn created() -> (r: Response)
        ensures
            r@ == created_v(),
            resp_wf(r@),
    {
        let r = Response { status_code: 201, headers: Vec::new(), body: None };
        proof {
            assert(headers_view(Seq::<Header>::empty()) =~= Seq::<HeaderV>::empty());
        }
        r
    }

    /// A plain-text success response: 200, `Content-Type: text/plain`,
    /// `Content-Length` equal to the body's byte length, and the given
    /// bytes as body.
    pub fn text(text: Vec<u8>) -> (r: Response)
        ensures
            r@ == text_v(text@),
            resp_wf(r@),
    {
        let mut headers: Vec<Header> = Vec::new();
        headers.push(Header::ContentType(ContentType::TextPlain));
        headers.push(Header::ContentLength(text.len()));
        let r = Response { status_code: 200, headers, body: Some(text) };
        proof {
            assert(headers_view(r.headers@) =~= seq![
                HeaderV::ContentType(ContentType::TextPlain),
                HeaderV::ContentLength(r.body->0@.len()),
            ]);
        }
        r
    }

    /// A file-contents success response: 200,
    /// `Content-Type: application/octet-stream`, exact
    /// `Content-Length`, and the file bytes as body.
    pub fn file_found(contents: Vec<u8>) -> (r: Response)
        ensures
            r@ == octet_v(contents@),
            resp_wf(r@),
    {
        let mut headers: Vec<Header> = Vec::new();
        headers.push(Header::ContentType(ContentType::ApplicationOctetStream));
        headers.push(Header::ContentLength(contents.len()));
        let r = Response { status_code: 200, headers, body: Some(contents) };
        proof {
            assert(headers_view(r.headers@) =~= seq![
                HeaderV::ContentType(ContentType::ApplicationOctetStream),
                HeaderV::ContentLength(r.body->0@.len()),
            ]);
        }
        r
    }

    /// The compression step: appends `Content-Encoding: gzip`, and
    /// when a body exists replaces it with its gzip form and sets the
    /// `ContentLength` header to the new byte length. The response
    /// must not already carry a `ContentEncoding` header.
    pub fn compressed(self) -> (r: Response)
        requires
            resp_wf(self@),
            !has_content_encoding(self@.headers),
        ensures
            r@ == compressed_v(self@),
            resp_wf(r@),
    {
        let Response { status_code, mut headers, body } = self;
        let ghost pre = headers_view(headers@);
        match body {
            Some(b) => {
                let gz = gzip_compress(&b);
                let i = find_first_cl(&headers);
                headers[i] = Header::ContentLength(gz.len());
                headers.push(Header::ContentEncoding);
                let r = Response { status_code, headers, body: Some(gz) };
                proof {
                    let k = first_content_length_index(pre);
                    let nh = pre.update(k, HeaderV::ContentLength(gzip_of(b@).len())).push(
                        HeaderV::ContentEncoding,
                    );
                    assert(headers_view(r.headers@) =~= nh);
                    assert(nh[k] is ContentLength);
                    assert forall|p: int|
                        0 <= p < nh.len() && nh[p] is ContentLength implies p == k by {
                        if p < pre.len() && p != k {
                            assert(nh[p] == pre[p]);
                            assert(pre[k] is ContentLength);
                        }
                        if p == pre.len() {
                            assert(nh[p] == HeaderV::ContentEncoding);
                        }
                    }
                    assert forall|p: int| 0 <= p < nh.len() implies emittable(#[trigger] nh[p]) by {
                        if p < pre.len() && p != k {
                            assert(nh[p] == pre[p]);
                            assert(emittable(pre[p]));
                        }
                    }
                }
                r
            },
            None => {
                headers.push(Header::ContentEncoding);
                let r = Response { status_code, headers, body: None };
                proof {
                    let nh = pre.push(HeaderV::ContentEncoding);
                    assert(headers_view(r.headers@) =~= nh);
                    assert forall|p: int|
                        0 <= p < nh.len() implies emittable(#[trigger] nh[p]) && !(nh[p]
                        is ContentLength) by {
                        if p < pre.len() {
                            assert(nh[p] == pre[p]);
                            assert(emittable(pre[p]));
                        } else {
                            assert(nh[p] == HeaderV::ContentEncoding);
                        }
                    }
                }
                r
            },
        }
    }

    /// Serializes the response onto `out`: `HTTP/1.1 <status>` CRLF,
    /// each header in storage order as `Name: Value` CRLF, a blank
    /// line, then the raw body bytes.
    pub fn write_to(&self, out: &mut Vec<u8>)
        requires
            resp_wf(self@),
        ensures
            final(out)@ == old(out)@ + wire_of(self@),
    {
        push_http_prefix(out);
        push_status_text(out, self.status_code);
        push_crlf(out);
        let ghost head = old(out)@ + http_prefix() + status_text(self@.status_code) + crlf();
        let mut i: usize = 0;
        while i < self.headers.len()
            invariant
                i <= self.headers@.len(),
                resp_wf(self@),
                self@.headers == headers_view(self.headers@),
                out@ == head + header_block(self@.headers.take(i as int)),
            decreases self.headers@.len() - i,
        {
            assert(emittable(self@.headers[i as int]));
            push_header(out, &self.headers[i]);
            proof {
                lemma_header_block_push(
                    self@.headers.take(i as int),
                    self@.headers[i as int],
                );
                assert(self@.headers.take(i + 1 as int) =~= self@.headers.take(i as int).push(
                    self@.headers[i as int],
                ));
            }
            i += 1;
        }
        assert(self@.headers.take(self.headers@.len() as int) =~= self@.headers);
        push_crlf(out);
        match &self.body {
            Some(b) => {
                push_all(out, b);
            },
            None => {},
        }
        assert(out@ =~= old(out)@ + wire_of(self@));
    }
}

fn find_first_cl(headers: &Vec<Header>) -> (i: usize)
    requires
        exists|j: int|
            0 <= j < headers_view(headers@).len() && headers_view(headers@)[j] is ContentLength,
    ensures
        i < headers@.len(),
        headers_view(headers@)[i as int] is ContentLength,
        i == first_content_length_index(headers_view(headers@)),
{
    let ghost hv = headers_view(headers@);
    let mut i: usize = 0;
    while i < headers.len()
        invariant
            i <= headers@.len(),
            hv == headers_view(headers@),
            exists|j: int| 0 <= j < hv.len() && hv[j] is ContentLength,
            forall|j: int| 0 <= j < i ==> !(hv[j] is ContentLength),
        decreases headers@.len() - i,
    {
        let found = match &headers[i] {
            Header::ContentLength(_) => true,
            _ => false,
        };
        if found {
            proof {
                lemma_first_cl_index(hv, i as int);
            }
            return i;
        }
        i += 1;
    }
    proof {
        assert(false);
    }
    0
}

proof fn lemma_first_cl_index(hs: Seq<HeaderV>, i: int)
    requires
        0 <= i < hs.len(),
        hs[i] is ContentLength,
        forall|j: int| 0 <= j < i ==> !(hs[j] is ContentLength),
    ensures
        first_content_length_index(hs) == i,
    decreases i,
{
    if i == 0 {
    } else {
        assert(forall|j: int|
            0 <= j < i - 1 ==> hs.drop_first()[j] == hs[j + 1] && !(hs[j + 1] is ContentLength));
        lemma_first_cl_index(hs.drop_first(), i - 1);
    }
}

} // verus!
