use vstd::prelude::*;
use vstd::string::StringSliceAdditionalSpecFns;
use vstd::utf8::encode_utf8;

use crate::bytes::{bytes_eq, crlf, decimal, lemma_separators, push_all, push_decimal};
use crate::headers::{lookup, set_field, Field, Headers};
use crate::status::{get_status_text, is_registered, status_text};

verus! {

/// What gzip at the default compression level makes of `data`.
pub uninterp spec fn gzip_of(data: Seq<u8>) -> Seq<u8>;

/// Relies on flate2's `GzEncoder` writing into a `Vec` at `Compression::default()`:
/// the result is the gzip stream of `data`. Writing into a `Vec` does not fail.
#[verifier::external_body]
fn gzip(data: &[u8]) -> (r: Vec<u8>)
    ensures
        r@ == gzip_of(data@),
{
    let mut encoder = flate2::write::GzEncoder::new(Vec::new(), flate2::Compression::default());
    std::io::Write::write_all(&mut encoder, data).unwrap();
    encoder.finish().unwrap()
}

/// A response as values: status code, header fields in order, body.
pub struct ResponseView {
    pub status_code: u16,
    pub headers: Seq<Field>,
    pub body: Seq<u8>,
}

pub open spec fn content_length_name() -> Seq<u8> {
    "Content-Length".spec_bytes()
}

pub open spec fn content_encoding_name() -> Seq<u8> {
    "Content-Encoding".spec_bytes()
}

pub open spec fn gzip_token() -> Seq<u8> {
    "gzip".spec_bytes()
}

/// `HTTP/1.1 <code> <reason>` and a line break.
pub open spec fn status_line(code: u16) -> Seq<u8> {
    "HTTP/1.1 ".spec_bytes() + decimal(code as nat) + " ".spec_bytes() + encode_utf8(
        status_text(code),
    ) + crlf()
}

/// `<name>: <value>` and a line break.
pub open spec fn field_line(f: Field) -> Seq<u8> {
    f.0 + ": ".spec_bytes() + f.1 + crlf()
}

/// The lines of the fields in order, leaving out any `Content-Length` field, which the
/// encoder states itself.
pub open spec fn header_block(fs: Seq<Field>) -> Seq<u8>
    decreases fs.len(),
{
    if fs.len() == 0 {
        Seq::empty()
    } else if fs.last().0 == content_length_name() {
        header_block(fs.drop_last())
    } else {
        header_block(fs.drop_last()) + field_line(fs.last())
    }
}

/// Whether the response carries `Content-Encoding: gzip`.
pub open spec fn is_gzipped(r: ResponseView) -> bool {
    lookup(r.headers, content_encoding_name()) == Some(gzip_token())
}

/// The body as sent: compressed when the response is gzipped.
pub open spec fn payload(r: ResponseView) -> Seq<u8> {
    if is_gzipped(r) {
        gzip_of(r.body)
    } else {
        r.body
    }
}

/// Everything before the body: status line, header lines, `Content-Length` of the
/// payload, and the empty line.
pub open spec fn head(r: ResponseView) -> Seq<u8> {
    status_line(r.status_code) + header_block(r.headers) + "Content-Length: ".spec_bytes()
        + decimal(payload(r).len()) + crlf() + crlf()
}

/// The bytes of a response on the wire.
pub open spec fn encode(r: ResponseView) -> Seq<u8> {
    head(r) + payload(r)
}

/// An HTTP response under construction.
pub struct HttpResponse {
    status_code: u16,
    headers: Headers,
    body: Vec<u8>,
}

impl View for HttpResponse {
    type V = ResponseView;

    closed spec fn view(&self) -> ResponseView {
        ResponseView { status_code: self.status_code, headers: self.headers@, body: self.body@ }
    }
}

impl HttpResponse {
    /// The invariant: header names are unique.
    pub closed spec fn wf(&self) -> bool {
        self.headers.wf()
    }

    /// A response with the given status, no headers and an empty body.
    pub fn new(status_code: u16) -> (r: HttpResponse)
        ensures
            r.wf(),
            r@ == (ResponseView {
                status_code,
                headers: Seq::<Field>::empty(),
                body: Seq::<u8>::empty(),
            }),
    {
        HttpResponse { status_code, headers: Headers::new(), body: Vec::new() }
    }

    /// Sets the status code.
    pub fn set_status_code(&mut self, status_code: u16) -> (r: &mut Self)
        requires
            old(self).wf(),
        ensures
            r.wf(),
            r@ == (ResponseView { status_code, ..old(self)@ }),
            *final(self) == *final(r),
    {
        self.status_code = status_code;
        self
    }

    /// Sets header `key` to `value`, replacing an earlier value of the same name.
    pub fn set_header(&mut self, key: &str, value: &str) -> (r: &mut Self)
        requires
            old(self).wf(),
        ensures
            r.wf(),
            r@ == (ResponseView {
                headers: set_field(old(self)@.headers, key.spec_bytes(), value.spec_bytes()),
                ..old(self)@
            }),
            *final(self) == *final(r),
    {
        self.set_header_bytes(key.as_bytes(), value.as_bytes());
        self
    }

    /// Sets header `key` to `value`, both given as bytes.
    fn set_header_bytes(&mut self, key: &[u8], value: &[u8])
        requires
            old(self).wf(),
        ensures
            final(self).wf(),
            final(self)@ == (ResponseView {
                headers: set_field(old(self)@.headers, key@, value@),
                ..old(self)@
            }),
    {
        let mut k: Vec<u8> = Vec::new();
        push_all(&mut k, key);
        let mut v: Vec<u8> = Vec::new();
        push_all(&mut v, value);
        assert(k@ =~= key@);
        assert(v@ =~= value@);
        self.headers.set(k, v);
    }

    /// Replaces the body.
    pub fn set_body(&mut self, body: Vec<u8>) -> (r: &mut Self)
        requires
            old(self).wf(),
        ensures
            r.wf(),
            r@ == (ResponseView { body: body@, ..old(self)@ }),
            *final(self) == *final(r),
    {
        self.body = body;
        self
    }

    /// The status code.
    pub fn status_code(&self) -> (r: u16)
        ensures
            r == self@.status_code,
    {
        self.status_code
    }

    /// The value of header `name`, if set.
    pub fn header(&self, name: &str) -> (r: Option<&Vec<u8>>)
        requires
            self.wf(),
        ensures
            match r {
                Some(v) => lookup(self@.headers, name.spec_bytes()) == Some(v@),
                None => lookup(self@.headers, name.spec_bytes()) == None::<Seq<u8>>,
            },
    {
        self.headers.get(name.as_bytes())
    }

    /// The body, before any compression.
    pub fn body(&self) -> (r: &Vec<u8>)
        ensures
            r@ == self@.body,
    {
        &self.body
    }

    /// The response on the wire: status line, the header lines, `Content-Length` of the
    /// body as sent, an empty line, then the body, gzip-compressed when the response
    /// carries `Content-Encoding: gzip`.
    pub fn as_bytes(&self) -> (r: Vec<u8>)
        requires
            self.wf(),
        ensures
            r@ == encode(self@),
    {
        proof {
            lemma_separators();
        }
        let mut out: Vec<u8> = Vec::new();
        push_all(&mut out, "HTTP/1.1 ".as_bytes());
        push_decimal(&mut out, self.status_code as usize);
        push_all(&mut out, " ".as_bytes());
        push_all(&mut out, get_status_text(self.status_code).as_bytes());
        push_all(&mut out, "\r\n".as_bytes());
        assert(out@ =~= status_line(self.status_code));
        let ghost fs = self.headers@;
        let n = self.headers.len();
        let mut i: usize = 0;
        while i < n
            invariant
                n == fs.len(),
                fs == self.headers@,
                i <= n,
                out@ == status_line(self.status_code) + header_block(fs.take(i as int)),
            decreases n - i,
        {
            proof {
                lemma_separators();
            }
            let (name, value) = self.headers.field(i);
            assert(fs.take(i + 1).drop_last() =~= fs.take(i as int));
            if !bytes_eq(name.as_slice(), "Content-Length".as_bytes()) {
                push_all(&mut out, name.as_slice());
                push_all(&mut out, ": ".as_bytes());
                push_all(&mut out, value.as_slice());
                push_all(&mut out, "\r\n".as_bytes());
                assert(out@ =~= status_line(self.status_code) + header_block(fs.take(i + 1)));
            }
            i += 1;
        }
        assert(fs.take(n as int) =~= fs);
        let gzipped = match self.headers.get("Content-Encoding".as_bytes()) {
            Some(v) => bytes_eq(v.as_slice(), "gzip".as_bytes()),
            None => false,
        };
        if gzipped {
            let compressed = gzip(self.body.as_slice());
            Self::push_payload(&mut out, compressed.as_slice());
        } else {
            Self::push_payload(&mut out, self.body.as_slice());
        }
        out
    }

    /// Appends the `Content-Length` line of `payload`, the empty line and `payload`.
    fn push_payload(out: &mut Vec<u8>, payload: &[u8])
        ensures
            final(out)@ == old(out)@ + "Content-Length: ".spec_bytes() + decimal(
                payload@.len(),
            ) + crlf() + crlf() + payload@,
    {
        proof {
            lemma_separators();
        }
        push_all(out, "Content-Length: ".as_bytes());
        push_decimal(out, payload.len());
        push_all(out, "\r\n".as_bytes());
        push_all(out, "\r\n".as_bytes());
        push_all(out, payload);
        assert(final(out)@ =~= old(out)@ + "Content-Length: ".spec_bytes() + decimal(
            payload@.len(),
        ) + crlf() + crlf() + payload@);
    }
}

/// The bytes of a response start with its status line, `HTTP/1.1 <code> <reason>`, where
/// the reason is the phrase registered for the code, or `Unknown` for a code without one.
pub proof fn lemma_status_line(r: ResponseView)
    ensures
        encode(r).take(status_line(r.status_code).len() as int) == status_line(r.status_code),
        status_line(r.status_code) == "HTTP/1.1 ".spec_bytes() + decimal(r.status_code as nat)
            + " ".spec_bytes() + encode_utf8(status_text(r.status_code)) + crlf(),
        !is_registered(r.status_code) ==> status_text(r.status_code) == "Unknown"@,
{
    let line = status_line(r.status_code);
    assert(encode(r) =~= line + (header_block(r.headers) + "Content-Length: ".spec_bytes()
        + decimal(payload(r).len()) + crlf() + crlf() + payload(r)));
    assert(encode(r).take(line.len() as int) =~= line);
}

/// A response with `Content-Encoding: gzip` carries the gzip stream of its body, and its
/// `Content-Length` states the length of that stream, not of the body.
pub proof fn lemma_gzip_framing(r: ResponseView)
    requires
        lookup(r.headers, "Content-Encoding".spec_bytes()) == Some("gzip".spec_bytes()),
    ensures
        encode(r) == status_line(r.status_code) + header_block(r.headers)
            + "Content-Length: ".spec_bytes() + decimal(gzip_of(r.body).len()) + crlf() + crlf()
            + gzip_of(r.body),
{
}

} // verus!
