use vstd::prelude::*;
use vstd::string::StringSliceAdditionalSpecFns;
use vstd::utf8::valid_utf8;

use crate::bytes::{
    copy_range, crlf, find, find_from, lemma_find_from, lemma_separators, push_all, trim_nul,
    trim_nul_bounds,
};
use crate::headers::{lookup, set_field, Field, Headers};

verus! {

/// The text that lossy UTF-8 decoding makes of `b`, as UTF-8 bytes.
pub uninterp spec fn utf8_lossy(b: Seq<u8>) -> Seq<u8>;

/// Relies on `String::from_utf8_lossy`: each invalid sequence becomes U+FFFD, and valid
/// UTF-8 comes back unchanged.
#[verifier::external_body]
fn lossy_text(buffer: &[u8]) -> (r: Vec<u8>)
    ensures
        r@ == utf8_lossy(buffer@),
        valid_utf8(buffer@) ==> r@ == buffer@,
{
    String::from_utf8_lossy(buffer).into_owned().into_bytes()
}

/// Why a request could not be read.
#[derive(Debug, Clone, Copy, PartialEq, Eq, Structural)]
pub enum RequestError {
    /// No request line, or one without a path.
    MalformedRequestLine,
    /// A header line without `": "`.
    MalformedHeader,
}

/// A request as values.
pub struct RequestView {
    pub method: Seq<u8>,
    pub path: Seq<u8>,
    pub headers: Seq<Field>,
    pub body: Seq<u8>,
}

/// Where the line-by-line reading of a request stands.
pub struct ParseState {
    /// The request line has been read.
    pub started: bool,
    /// No empty line has been seen yet.
    pub in_headers: bool,
    pub req: RequestView,
}

pub open spec fn initial_state() -> ParseState {
    ParseState {
        started: false,
        in_headers: true,
        req: RequestView {
            method: Seq::empty(),
            path: Seq::empty(),
            headers: Seq::empty(),
            body: Seq::empty(),
        },
    }
}

/// The first token of `line` and the second, where tokens are separated by single
/// spaces; `None` without a space.
pub open spec fn request_line(line: Seq<u8>) -> Option<(Seq<u8>, Seq<u8>)> {
    let sp = find_from(line, " ".spec_bytes(), 0);
    if sp < 0 {
        None
    } else {
        let rest = line.subrange(sp + 1, line.len() as int);
        let sp2 = find_from(rest, " ".spec_bytes(), 0);
        let path = if sp2 < 0 {
            rest
        } else {
            rest.subrange(0, sp2)
        };
        Some((line.subrange(0, sp), path))
    }
}

/// `line` split once at the first `": "`; `None` without one.
pub open spec fn header_line(line: Seq<u8>) -> Option<Field> {
    let c = find_from(line, ": ".spec_bytes(), 0);
    if c < 0 {
        None
    } else {
        Some((line.subrange(0, c), line.subrange(c + 2, line.len() as int)))
    }
}

/// Reading one line. An empty line ends the headers and is otherwise skipped; the first
/// other line is the request line; then header lines until the first empty line; after
/// it each line, without NUL bytes at its ends, is appended to the body.
pub open spec fn step(st: ParseState, line: Seq<u8>) -> Result<ParseState, RequestError> {
    if line.len() == 0 {
        Ok(ParseState { in_headers: false, ..st })
    } else if !st.started {
        match request_line(line) {
            None => Err(RequestError::MalformedRequestLine),
            Some((method, path)) => Ok(
                ParseState { started: true, req: RequestView { method, path, ..st.req }, ..st },
            ),
        }
    } else if st.in_headers {
        match header_line(line) {
            None => Err(RequestError::MalformedHeader),
            Some((name, value)) => Ok(
                ParseState {
                    req: RequestView { headers: set_field(st.req.headers, name, value), ..st.req },
                    ..st
                },
            ),
        }
    } else {
        Ok(ParseState { req: RequestView { body: st.req.body + trim_nul(line), ..st.req }, ..st })
    }
}

/// Reading the lines of `t` from index `pos` on, lines being separated by CR LF.
pub open spec fn parse_from(t: Seq<u8>, pos: int, st: ParseState) -> Result<
    ParseState,
    RequestError,
>
    decreases t.len() - pos,
{
    if pos < 0 || pos > t.len() {
        Ok(st)
    } else {
        let e = find_from(t, crlf(), pos);
        if pos <= e && e + 2 <= t.len() {
            // a line break ends this line
            match step(st, t.subrange(pos, e)) {
                Err(err) => Err(err),
                Ok(next) => parse_from(t, e + 2, next),
            }
        } else {
            // the last line
            step(st, t.subrange(pos, t.len() as int))
        }
    }
}

/// The request that `t` holds, or why it holds none.
pub open spec fn parse_text(t: Seq<u8>) -> Result<RequestView, RequestError> {
    match parse_from(t, 0, initial_state()) {
        Err(err) => Err(err),
        Ok(st) => if st.started {
            Ok(st.req)
        } else {
            Err(RequestError::MalformedRequestLine)
        },
    }
}

/// An HTTP request read from one buffer.
pub struct HttpRequest {
    method: Vec<u8>,
    path: Vec<u8>,
    headers: Headers,
    body: Vec<u8>,
}

impl View for HttpRequest {
    type V = RequestView;

    closed spec fn view(&self) -> RequestView {
        RequestView {
            method: self.method@,
            path: self.path@,
            headers: self.headers@,
            body: self.body@,
        }
    }
}

impl HttpRequest {
    /// The invariant: header names are unique.
    pub closed spec fn wf(&self) -> bool {
        self.headers.wf()
    }

    /// Reads a request from a buffer of raw bytes, decoded as UTF-8 with invalid
    /// sequences replaced.
    pub fn new(buffer: &[u8]) -> (r: Result<HttpRequest, RequestError>)
        ensures
            match r {
                Ok(req) => req.wf() && parse_text(utf8_lossy(buffer@)) == Ok::<
                    RequestView,
                    RequestError,
                >(req@),
                Err(e) => parse_text(utf8_lossy(buffer@)) == Err::<RequestView, RequestError>(e),
            },
    {
        let text = lossy_text(buffer);
        Self::parse(text.as_slice())
    }

    /// Reads a request from text given as UTF-8 bytes.
    pub fn parse(text: &[u8]) -> (r: Result<HttpRequest, RequestError>)
        ensures
            match r {
                Ok(req) => req.wf() && parse_text(text@) == Ok::<RequestView, RequestError>(
                    req@,
                ),
                Err(e) => parse_text(text@) == Err::<RequestView, RequestError>(e),
            },
    {
        let mut req = HttpRequest {
            method: Vec::new(),
            path: Vec::new(),
            headers: Headers::new(),
            body: Vec::new(),
        };
        proof {
            lemma_separators();
        }
        let mut started = false;
        let mut in_headers = true;
        let mut pos: usize = 0;
        assert(req@ == initial_state().req);
        loop
            invariant_except_break
                parse_from(text@, 0, initial_state()) == parse_from(
                    text@,
                    pos as int,
                    ParseState { started, in_headers, req: req@ },
                ),
            invariant
                pos <= text.len(),
                req.wf(),
            ensures
                parse_from(text@, 0, initial_state()) == Ok::<ParseState, RequestError>(
                    ParseState { started, in_headers, req: req@ },
                ),
            decreases text.len() - pos,
        {
            proof {
                lemma_separators();
            }
            let found = find(text, "\r\n".as_bytes(), pos);
            let end = match found {
                Some(e) => e,
                None => text.len(),
            };
            proof {
                lemma_find_from(text@, crlf(), pos as int);
            }
            let line = &text[pos..end];
            let ghost before = ParseState { started, in_headers, req: req@ };
            if line.len() == 0 {
                in_headers = false;
            } else if !started {
                match Self::read_request_line(line) {
                    Some((method, path)) => {
                        req.method = method;
                        req.path = path;
                        started = true;
                    },
                    None => {
                        return Err(RequestError::MalformedRequestLine);
                    },
                }
            } else if in_headers {
                match find(line, ": ".as_bytes(), 0) {
                    Some(c) => {
                        proof {
                            lemma_find_from(line@, ": ".spec_bytes(), 0);
                        }
                        let name = copy_range(line, 0, c);
                        let value = copy_range(line, c + 2, line.len());
                        req.headers.set(name, value);
                    },
                    None => {
                        return Err(RequestError::MalformedHeader);
                    },
                }
            } else {
                let (a, b) = trim_nul_bounds(line);
                push_all(&mut req.body, &line[a..b]);
            }
            assert(step(before, line@) == Ok::<ParseState, RequestError>(
                ParseState { started, in_headers, req: req@ },
            ));
            match found {
                Some(e) => {
                    pos = e + 2;
                },
                None => {
                    break ;
                },
            }
        }
        if started {
            Ok(req)
        } else {
            Err(RequestError::MalformedRequestLine)
        }
    }

    /// The method and path of a request line.
    fn read_request_line(line: &[u8]) -> (r: Option<(Vec<u8>, Vec<u8>)>)
        ensures
            match r {
                Some((m, p)) => request_line(line@) == Some((m@, p@)),
                None => request_line(line@) == None::<(Seq<u8>, Seq<u8>)>,
            },
    {
        proof {
            lemma_separators();
        }
        match find(line, " ".as_bytes(), 0) {
            None => None,
            Some(sp) => {
                proof {
                    lemma_find_from(line@, " ".spec_bytes(), 0);
                }
                let method = copy_range(line, 0, sp);
                let rest = &line[sp + 1..line.len()];
                let path = match find(rest, " ".as_bytes(), 0) {
                    Some(sp2) => {
                        proof {
                            lemma_find_from(rest@, " ".spec_bytes(), 0);
                        }
                        copy_range(rest, 0, sp2)
                    },
                    None => copy_range(rest, 0, rest.len()),
                };
                assert(rest@.subrange(0, rest@.len() as int) =~= rest@);
                Some((method, path))
            },
        }
    }

    /// The method token of the request line.
    pub fn method(&self) -> (r: &Vec<u8>)
        ensures
            r@ == self@.method,
    {
        &self.method
    }

    /// The path token of the request line, as received.
    pub fn path(&self) -> (r: &Vec<u8>)
        ensures
            r@ == self@.path,
    {
        &self.path
    }

    /// The body: the lines after the first empty line, joined.
    pub fn body(&self) -> (r: &Vec<u8>)
        ensures
            r@ == self@.body,
    {
        &self.body
    }

    /// The value of header `name`, if the request has it.
    pub fn header(&self, name: &str) -> (r: Option<&Vec<u8>>)
        requires
            self.wf(),
        ensures
            match r {
                Some(v) => lookup(self@.headers, name.spec_bytes()) == Some(v@),
                None => lookup(self@.headers, name.spec_bytes()) == None::<Seq<u8>>,
            },
    {
        self.headers.get(name.as_bytes())
    }
}

} // verus!
