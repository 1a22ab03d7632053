use vstd::prelude::*;
use vstd::string::{is_ascii, is_ascii_spec_bytes, StringSliceAdditionalSpecFns};

use crate::bytes::{
    bytes_eq, copy_range, crlf, find, find_from, has_prefix, lemma_find_first, lemma_find_from,
    lemma_separators, matches_at, occurs_at, push_all, trim_space, trim_space_bounds,
};
use crate::headers::{lemma_set_field, lookup, set_field, Field};
use crate::request::{
    initial_state, parse_from, parse_text, step, utf8_lossy, HttpRequest, ParseState, RequestView,
};
use crate::response::{content_encoding_name, gzip_token, HttpResponse, ResponseView};

verus! {

/// Whether the comma-separated list `v`, from index `pos` on, holds the token `gzip`,
/// each token taken without white space at its ends.
pub open spec fn lists_gzip_from(v: Seq<u8>, pos: int) -> bool
    decreases v.len() - pos,
{
    if pos < 0 || pos > v.len() {
        false
    } else {
        let c = find_from(v, ",".spec_bytes(), pos);
        if pos <= c && c + 1 <= v.len() {
            trim_space(v.subrange(pos, c)) == gzip_token() || lists_gzip_from(v, c + 1)
        } else {
            trim_space(v.subrange(pos, v.len() as int)) == gzip_token()
        }
    }
}

/// Whether the `Accept-Encoding` value `v` lists `gzip`.
pub open spec fn lists_gzip(v: Seq<u8>) -> bool {
    lists_gzip_from(v, 0)
}

/// Whether the request's `Accept-Encoding` header lists `gzip`.
pub open spec fn accepts_gzip(req: RequestView) -> bool {
    match lookup(req.headers, "Accept-Encoding".spec_bytes()) {
        Some(v) => lists_gzip(v),
        None => false,
    }
}

/// The encoding to answer with, given the `Accept-Encoding` value: `gzip` when the value
/// lists it, and none otherwise.
pub fn parse_encoding(encoding: Option<&Vec<u8>>) -> (r: Option<&'static str>)
    ensures
        match encoding {
            Some(v) => if lists_gzip(v@) {
                r is Some && r->Some_0@ == "gzip"@
            } else {
                r is None
            },
            None => r is None,
        },
{
    match encoding {
        None => None,
        Some(v) => {
            let mut pos: usize = 0;
            loop
                invariant
                    encoding == Some(v),
                    pos <= v.len(),
                    lists_gzip(v@) == lists_gzip_from(v@, pos as int),
                decreases v.len() - pos,
            {
                proof {
                    lemma_separators();
                    lemma_find_from(v@, ",".spec_bytes(), pos as int);
                }
                let found = find(v.as_slice(), ",".as_bytes(), pos);
                let end = match found {
                    Some(c) => c,
                    None => v.len(),
                };
                let token = &v.as_slice()[pos..end];
                let (a, b) = trim_space_bounds(token);
                if bytes_eq(&token[a..b], "gzip".as_bytes()) {
                    return Some("gzip");
                }
                match found {
                    Some(c) => {
                        pos = c + 1;
                    },
                    None => {
                        return None;
                    },
                }
            }
        },
    }
}

/// What the server does for a request.
pub enum Action {
    /// Send this response.
    Respond(HttpResponse),
    /// Read the file at `path`, then complete `response` with `finish_read`.
    ReadFile { path: Vec<u8>, response: HttpResponse },
    /// Write `contents` to the file at `path`, then complete `response` with
    /// `finish_write`.
    WriteFile { path: Vec<u8>, contents: Vec<u8>, response: HttpResponse },
}

/// An action as values.
pub enum ActionView {
    Respond(ResponseView),
    ReadFile(Seq<u8>, ResponseView),
    WriteFile(Seq<u8>, Seq<u8>, ResponseView),
}

impl View for Action {
    type V = ActionView;

    open spec fn view(&self) -> ActionView {
        match self {
            Action::Respond(r) => ActionView::Respond(r@),
            Action::ReadFile { path, response } => ActionView::ReadFile(path@, response@),
            Action::WriteFile { path, contents, response } => ActionView::WriteFile(
                path@,
                contents@,
                response@,
            ),
        }
    }
}

impl Action {
    /// The response it holds is well formed.
    pub open spec fn wf(&self) -> bool {
        match self {
            Action::Respond(r) => r.wf(),
            Action::ReadFile { response, .. } => response.wf(),
            Action::WriteFile { response, .. } => response.wf(),
        }
    }
}

/// A response with status `code` and an empty body, carrying `Content-Encoding: gzip`
/// when the request accepts gzip.
pub open spec fn base_response(req: RequestView, code: u16) -> ResponseView {
    ResponseView {
        status_code: code,
        headers: if accepts_gzip(req) {
            seq![(content_encoding_name(), gzip_token())]
        } else {
            Seq::<Field>::empty()
        },
        body: Seq::empty(),
    }
}

/// `Content-Type: text/plain` with `body`, status 200.
pub open spec fn text_response(req: RequestView, body: Seq<u8>) -> ResponseView {
    let base = base_response(req, 200);
    ResponseView {
        headers: set_field(base.headers, "Content-Type".spec_bytes(), "text/plain".spec_bytes()),
        body,
        ..base
    }
}

/// The file that `name` stands for: under `root` when one is configured, else under `/`.
pub open spec fn file_path(root: Option<Seq<u8>>, name: Seq<u8>) -> Seq<u8> {
    match root {
        Some(dir) => dir + "/".spec_bytes() + name,
        None => "/".spec_bytes() + name,
    }
}

/// What follows `prefix` in `path`.
pub open spec fn path_rest(path: Seq<u8>, prefix: Seq<u8>) -> Seq<u8> {
    path.skip(prefix.len() as int)
}

/// What a GET request asks for.
pub open spec fn get_route(req: RequestView, root: Option<Seq<u8>>) -> ActionView {
    let path = req.path;
    if path == "/".spec_bytes() {
        ActionView::Respond(base_response(req, 200))
    } else if path == "/user-agent".spec_bytes() {
        match lookup(req.headers, "User-Agent".spec_bytes()) {
            Some(agent) => ActionView::Respond(text_response(req, agent)),
            None => ActionView::Respond(base_response(req, 400)),
        }
    } else if has_prefix(path, "/echo/".spec_bytes()) {
        ActionView::Respond(text_response(req, path_rest(path, "/echo/".spec_bytes())))
    } else if has_prefix(path, "/files/".spec_bytes()) {
        ActionView::ReadFile(
            file_path(root, path_rest(path, "/files/".spec_bytes())),
            base_response(req, 200),
        )
    } else {
        ActionView::Respond(base_response(req, 404))
    }
}

/// What a POST request asks for.
pub open spec fn post_route(req: RequestView, root: Option<Seq<u8>>) -> ActionView {
    if has_prefix(req.path, "/files/".spec_bytes()) {
        ActionView::WriteFile(
            file_path(root, path_rest(req.path, "/files/".spec_bytes())),
            req.body,
            base_response(req, 200),
        )
    } else {
        ActionView::Respond(base_response(req, 404))
    }
}

/// A response with status `code`, no headers and an empty body.
pub open spec fn bare_response(code: u16) -> ResponseView {
    ResponseView { status_code: code, headers: Seq::empty(), body: Seq::empty() }
}

/// What a request asks for: GET and POST are routed by path, any other method gets 405.
pub open spec fn route(req: RequestView, root: Option<Seq<u8>>) -> ActionView {
    if req.method == "GET".spec_bytes() {
        get_route(req, root)
    } else if req.method == "POST".spec_bytes() {
        post_route(req, root)
    } else {
        ActionView::Respond(bare_response(405))
    }
}

/// What the server does for the raw bytes of a request: a request that cannot be read
/// gets 400.
pub open spec fn handle(buffer: Seq<u8>, root: Option<Seq<u8>>) -> ActionView {
    match parse_text(utf8_lossy(buffer)) {
        Ok(req) => route(req, root),
        Err(_) => ActionView::Respond(bare_response(400)),
    }
}

/// The response once the file has been read: its contents with
/// `Content-Type: application/octet-stream`, or 404 when it could not be read.
pub open spec fn read_done(resp: ResponseView, contents: Option<Seq<u8>>) -> ResponseView {
    match contents {
        Some(c) => ResponseView {
            headers: set_field(
                resp.headers,
                "Content-Type".spec_bytes(),
                "application/octet-stream".spec_bytes(),
            ),
            body: c,
            ..resp
        },
        None => ResponseView { status_code: 404, ..resp },
    }
}

/// The response once the file has been written: 201, or 500 when it could not be written.
pub open spec fn write_done(resp: ResponseView, written: bool) -> ResponseView {
    ResponseView { status_code: if written { 201 } else { 500 }, ..resp }
}

/// The configured root directory as bytes.
pub open spec fn root_view(root: Option<&[u8]>) -> Option<Seq<u8>> {
    match root {
        Some(dir) => Some(dir@),
        None => None,
    }
}

/// A response with status `code`, carrying `Content-Encoding: gzip` when the request
/// accepts gzip.
fn negotiated_response(request: &HttpRequest, code: u16) -> (r: HttpResponse)
    requires
        request.wf(),
    ensures
        r.wf(),
        r@ == base_response(request@, code),
{
    let mut response = HttpResponse::new(code);
    let encoding = request.header("Accept-Encoding");
    match parse_encoding(encoding) {
        Some(encoding) => {
            response.set_header("Content-Encoding", encoding);
            assert(response@.headers =~= seq![(content_encoding_name(), gzip_token())]);
        },
        None => {},
    }
    response
}

/// The file path for the part of `path` after `prefix`.
fn target_path(root: Option<&[u8]>, path: &[u8], prefix: &[u8]) -> (r: Vec<u8>)
    requires
        prefix@.len() <= path@.len(),
    ensures
        r@ == file_path(root_view(root), path_rest(path@, prefix@)),
{
    let mut out: Vec<u8> = Vec::new();
    match root {
        Some(dir) => push_all(&mut out, dir),
        None => {},
    }
    push_all(&mut out, "/".as_bytes());
    let name = copy_range(path, prefix.len(), path.len());
    push_all(&mut out, name.as_slice());
    assert(name@ =~= path_rest(path@, prefix@));
    match root {
        Some(dir) => {
            assert(out@ =~= dir@ + "/".spec_bytes() + path_rest(path@, prefix@));
        },
        None => {
            assert(out@ =~= "/".spec_bytes() + path_rest(path@, prefix@));
        },
    }
    out
}

/// A 200 response of type `text/plain` with `body`.
fn text_reply(request: &HttpRequest, body: &[u8]) -> (r: HttpResponse)
    requires
        request.wf(),
    ensures
        r.wf(),
        r@ == text_response(request@, body@),
{
    let mut response = negotiated_response(request, 200);
    response.set_header("Content-Type", "text/plain");
    let mut b: Vec<u8> = Vec::new();
    push_all(&mut b, body);
    assert(b@ =~= body@);
    response.set_body(b);
    response
}

/// Routes a GET request by its path.
pub fn handle_get_request(request: &HttpRequest, root: Option<&[u8]>) -> (r: Action)
    requires
        request.wf(),
    ensures
        r.wf(),
        r@ == get_route(request@, root_view(root)),
{
    let path = request.path().as_slice();
    if bytes_eq(path, "/".as_bytes()) {
        Action::Respond(negotiated_response(request, 200))
    } else if bytes_eq(path, "/user-agent".as_bytes()) {
        match request.header("User-Agent") {
            Some(agent) => Action::Respond(text_reply(request, agent.as_slice())),
            None => Action::Respond(negotiated_response(request, 400)),
        }
    } else if matches_at(path, "/echo/".as_bytes(), 0) {
        let prefix = "/echo/".as_bytes();
        let content = copy_range(path, prefix.len(), path.len());
        assert(content@ =~= path_rest(path@, prefix@));
        Action::Respond(text_reply(request, content.as_slice()))
    } else if matches_at(path, "/files/".as_bytes(), 0) {
        let file = target_path(root, path, "/files/".as_bytes());
        Action::ReadFile { path: file, response: negotiated_response(request, 200) }
    } else {
        Action::Respond(negotiated_response(request, 404))
    }
}

/// Routes a POST request by its path.
pub fn handle_post_request(request: &HttpRequest, root: Option<&[u8]>) -> (r: Action)
    requires
        request.wf(),
    ensures
        r.wf(),
        r@ == post_route(request@, root_view(root)),
{
    let path = request.path().as_slice();
    if matches_at(path, "/files/".as_bytes(), 0) {
        let file = target_path(root, path, "/files/".as_bytes());
        let mut contents: Vec<u8> = Vec::new();
        push_all(&mut contents, request.body().as_slice());
        assert(contents@ =~= request@.body);
        Action::WriteFile { path: file, contents, response: negotiated_response(request, 200) }
    } else {
        Action::Respond(negotiated_response(request, 404))
    }
}

/// Routes a request by its method.
pub fn dispatch(request: &HttpRequest, root: Option<&[u8]>) -> (r: Action)
    requires
        request.wf(),
    ensures
        r.wf(),
        r@ == route(request@, root_view(root)),
{
    let method = request.method().as_slice();
    if bytes_eq(method, "GET".as_bytes()) {
        handle_get_request(request, root)
    } else if bytes_eq(method, "POST".as_bytes()) {
        handle_post_request(request, root)
    } else {
        let r = HttpResponse::new(405);
        Action::Respond(r)
    }
}

/// Reads the request in `buffer` and routes it; a request that cannot be read gets 400.
pub fn handle_connection(buffer: &[u8], root: Option<&[u8]>) -> (r: Action)
    ensures
        r.wf(),
        r@ == handle(buffer@, root_view(root)),
{
    match HttpRequest::new(buffer) {
        Ok(request) => dispatch(&request, root),
        Err(_) => Action::Respond(HttpResponse::new(400)),
    }
}

/// Completes a file response with what reading the file gave.
pub fn finish_read(response: HttpResponse, contents: Option<Vec<u8>>) -> (r: HttpResponse)
    requires
        response.wf(),
    ensures
        r.wf(),
        r@ == read_done(
            response@,
            match contents {
                Some(c) => Some(c@),
                None => None,
            },
        ),
{
    let mut response = response;
    match contents {
        Some(c) => {
            response.set_header("Content-Type", "application/octet-stream");
            response.set_body(c);
        },
        None => {
            response.set_status_code(404);
        },
    }
    response
}

/// Completes a file upload response with whether writing the file succeeded.
pub fn finish_write(response: HttpResponse, written: bool) -> (r: HttpResponse)
    requires
        response.wf(),
    ensures
        r.wf(),
        r@ == write_done(response@, written),
{
    let mut response = response;
    if written {
        response.set_status_code(201);
    } else {
        response.set_status_code(500);
    }
    response
}

/// The bytes of the literals that requests are routed on.
proof fn lemma_route_literals()
    ensures
        "/".spec_bytes() == seq![47u8],
        "/user-agent".spec_bytes().len() == 11,
        "/user-agent".spec_bytes()[1] == 117u8,
        "/echo/".spec_bytes() == seq![47u8, 101, 99, 104, 111, 47],
        "/files/".spec_bytes() == seq![47u8, 102, 105, 108, 101, 115, 47],
        "Content-Type".spec_bytes().len() == 12,
        "Content-Encoding".spec_bytes().len() == 16,
{
    broadcast use is_ascii_spec_bytes;

    reveal_strlit("/");
    reveal_strlit("/user-agent");
    reveal_strlit("/echo/");
    reveal_strlit("/files/");
    reveal_strlit("Content-Type");
    reveal_strlit("Content-Encoding");
    assert(is_ascii("/"));
    assert(is_ascii("/user-agent"));
    assert(is_ascii("/echo/"));
    assert(is_ascii("/files/"));
    assert(is_ascii("Content-Type"));
    assert(is_ascii("Content-Encoding"));
    assert("/".spec_bytes() =~= seq![47u8]);
    assert("/echo/".spec_bytes() =~= seq![47u8, 101, 99, 104, 111, 47]);
    assert("/files/".spec_bytes() =~= seq![47u8, 102, 105, 108, 101, 115, 47]);
}

/// The headers of `base_response` have unique names, and none is `Content-Type`.
proof fn lemma_base_headers(req: RequestView, code: u16)
    ensures
        crate::headers::names_unique(base_response(req, code).headers),
        lookup(base_response(req, code).headers, "Content-Type".spec_bytes()) == None::<Seq<u8>>,
{
    lemma_route_literals();
    let hs = base_response(req, code).headers;
    if crate::headers::has_name(hs, "Content-Type".spec_bytes()) {
        let i = crate::headers::name_index(hs, "Content-Type".spec_bytes());
        assert(hs[i].0 == content_encoding_name());
    }
}

/// A path that starts with `/echo/` or `/files/` is neither `/` nor `/user-agent`.
proof fn lemma_prefixed_path(prefix: Seq<u8>, rest: Seq<u8>)
    requires
        prefix == "/echo/".spec_bytes() || prefix == "/files/".spec_bytes(),
    ensures
        prefix + rest != "/".spec_bytes(),
        prefix + rest != "/user-agent".spec_bytes(),
        has_prefix(prefix + rest, prefix),
        path_rest(prefix + rest, prefix) == rest,
        prefix == "/files/".spec_bytes() ==> !has_prefix(prefix + rest, "/echo/".spec_bytes()),
{
    lemma_route_literals();
    let p = prefix + rest;
    assert(p[1] == prefix[1]);
    assert(p.subrange(0, prefix.len() as int) =~= prefix);
    assert(path_rest(p, prefix) =~= rest);
    if prefix == "/files/".spec_bytes() {
        assert(p.subrange(0, 6)[1] != "/echo/".spec_bytes()[1]);
    }
}

/// `GET /echo/<x>` answers 200 with body `x` and `Content-Type: text/plain`.
pub proof fn lemma_echo(req: RequestView, root: Option<Seq<u8>>, x: Seq<u8>)
    requires
        req.method == "GET".spec_bytes(),
        req.path == "/echo/".spec_bytes() + x,
    ensures
        route(req, root) == ActionView::Respond(text_response(req, x)),
        text_response(req, x).status_code == 200,
        text_response(req, x).body == x,
        lookup(text_response(req, x).headers, "Content-Type".spec_bytes()) == Some(
            "text/plain".spec_bytes(),
        ),
{
    lemma_prefixed_path("/echo/".spec_bytes(), x);
    lemma_base_headers(req, 200);
    lemma_set_field(
        base_response(req, 200).headers,
        "Content-Type".spec_bytes(),
        "text/plain".spec_bytes(),
    );
}

/// The text `GET /echo/<x> HTTP/1.1`, a line break and an empty line, where `x` holds no
/// CR, LF or space, reads as a GET request for `/echo/<x>` with no headers and no body;
/// `lemma_echo` gives its answer.
pub proof fn lemma_echo_text(x: Seq<u8>, root: Option<Seq<u8>>)
    requires
        forall|i: int| 0 <= i < x.len() ==> x[i] != 13u8 && x[i] != 10u8 && x[i] != 32u8,
    ensures
        parse_text("GET /echo/".spec_bytes() + x + " HTTP/1.1\r\n\r\n".spec_bytes()) == Ok::<
            RequestView,
            crate::request::RequestError,
        >(
            RequestView {
                method: "GET".spec_bytes(),
                path: "/echo/".spec_bytes() + x,
                headers: Seq::empty(),
                body: Seq::empty(),
            },
        ),
{
    broadcast use is_ascii_spec_bytes;

    reveal_strlit("GET /echo/");
    reveal_strlit(" HTTP/1.1\r\n\r\n");
    reveal_strlit("GET");
    assert(is_ascii("GET /echo/"));
    assert(is_ascii(" HTTP/1.1\r\n\r\n"));
    assert(is_ascii("GET"));
    lemma_route_literals();
    lemma_separators();
    let head = seq![71u8, 69, 84, 32, 47, 101, 99, 104, 111, 47];
    let tail = seq![32u8, 72, 84, 84, 80, 47, 49, 46, 49, 13, 10, 13, 10];
    assert("GET /echo/".spec_bytes() =~= head);
    assert(" HTTP/1.1\r\n\r\n".spec_bytes() =~= tail);
    assert("GET".spec_bytes() =~= seq![71u8, 69, 84]);
    let n = x.len() as int;
    let t = head + x + tail;
    let lf = crlf();
    // the request line ends at the first CR
    assert forall|k: int| 0 <= k < 19 + n implies !occurs_at(t, lf, k) by {
        if occurs_at(t, lf, k) {
            assert(t.subrange(k, k + 2)[0] == t[k]);
            if k >= 10 && k < 10 + n {
                assert(t[k] == x[k - 10]);
            }
        }
    }
    assert(t.subrange(19 + n, 21 + n) =~= lf);
    lemma_find_first(t, lf, 0, 19 + n);
    let line = t.subrange(0, 19 + n);
    // the method ends at the first space
    let sp = seq![32u8];
    assert forall|k: int| 0 <= k < 3 implies !occurs_at(line, sp, k) by {
        if occurs_at(line, sp, k) {
            assert(line.subrange(k, k + 1)[0] == line[k]);
        }
    }
    assert(line.subrange(3, 4) =~= sp);
    lemma_find_first(line, sp, 0, 3);
    let rest = line.subrange(4, line.len() as int);
    assert forall|k: int| 0 <= k < 6 + n implies !occurs_at(rest, sp, k) by {
        if occurs_at(rest, sp, k) {
            assert(rest.subrange(k, k + 1)[0] == rest[k]);
            if k >= 6 {
                assert(rest[k] == x[k - 6]);
            }
        }
    }
    assert(rest.subrange(6 + n, 7 + n) =~= sp);
    lemma_find_first(rest, sp, 0, 6 + n);
    assert(line.subrange(0, 3) =~= "GET".spec_bytes());
    assert(rest.subrange(0, 6 + n) =~= "/echo/".spec_bytes() + x);
    let st1 = step(initial_state(), line);
    // then an empty line, and nothing after it
    assert(t.subrange(21 + n, 23 + n) =~= lf);
    lemma_find_first(t, lf, 21 + n, 21 + n);
    assert(t.subrange(21 + n, 21 + n) =~= Seq::<u8>::empty());
    assert(t.subrange(23 + n, 23 + n) =~= Seq::<u8>::empty());
    assert(find_from(t, lf, 23 + n) == -1);
    let st2 = ParseState { in_headers: false, ..st1->Ok_0 };
    assert(parse_from(t, 23 + n, st2) == step(st2, Seq::<u8>::empty()));
    assert(parse_from(t, 21 + n, st1->Ok_0) == parse_from(t, 23 + n, st2));
}

/// `GET /user-agent` answers 200 with the value of the `User-Agent` header as body.
pub proof fn lemma_user_agent(req: RequestView, root: Option<Seq<u8>>, agent: Seq<u8>)
    requires
        req.method == "GET".spec_bytes(),
        req.path == "/user-agent".spec_bytes(),
        lookup(req.headers, "User-Agent".spec_bytes()) == Some(agent),
    ensures
        route(req, root) == ActionView::Respond(text_response(req, agent)),
        text_response(req, agent).status_code == 200,
        text_response(req, agent).body == agent,
{
    lemma_route_literals();
    assert(req.path != "/".spec_bytes());
}

/// `POST /files/<name>` and `GET /files/<name>` reach the same file: the upload writes
/// the request body and, once written, answers 201; reading back contents `c` answers 200
/// with body `c` and `Content-Type: application/octet-stream`.
pub proof fn lemma_upload_then_download(
    post: RequestView,
    get: RequestView,
    root: Option<Seq<u8>>,
    name: Seq<u8>,
    c: Seq<u8>,
)
    requires
        post.method == "POST".spec_bytes(),
        get.method == "GET".spec_bytes(),
        post.path == "/files/".spec_bytes() + name,
        get.path == "/files/".spec_bytes() + name,
    ensures
        match (route(post, root), route(get, root)) {
            (ActionView::WriteFile(written, contents, up), ActionView::ReadFile(read, down)) => {
                &&& written == read
                &&& written == file_path(root, name)
                &&& contents == post.body
                &&& write_done(up, true).status_code == 201
                &&& read_done(down, Some(c)).status_code == 200
                &&& read_done(down, Some(c)).body == c
                &&& lookup(read_done(down, Some(c)).headers, "Content-Type".spec_bytes()) == Some(
                    "application/octet-stream".spec_bytes(),
                )
            },
            _ => false,
        },
{
    lemma_route_literals();
    lemma_prefixed_path("/files/".spec_bytes(), name);
    assert(post.method != "GET".spec_bytes()) by {
        reveal_strlit("GET");
        reveal_strlit("POST");
        assert(is_ascii("GET"));
        assert(is_ascii("POST"));
        broadcast use is_ascii_spec_bytes;

    }
    lemma_base_headers(get, 200);
    lemma_set_field(
        base_response(get, 200).headers,
        "Content-Type".spec_bytes(),
        "application/octet-stream".spec_bytes(),
    );
}

/// `GET /files/<name>` whose file cannot be read answers 404 with an empty body.
pub proof fn lemma_missing_file(req: RequestView, root: Option<Seq<u8>>, name: Seq<u8>)
    requires
        req.method == "GET".spec_bytes(),
        req.path == "/files/".spec_bytes() + name,
    ensures
        match route(req, root) {
            ActionView::ReadFile(path, r) => {
                &&& path == file_path(root, name)
                &&& read_done(r, None).status_code == 404
                &&& read_done(r, None).body.len() == 0
            },
            _ => false,
        },
{
    lemma_prefixed_path("/files/".spec_bytes(), name);
}

/// Any method other than GET and POST answers 405 with no headers and an empty body,
/// whatever the path.
pub proof fn lemma_other_method(req: RequestView, root: Option<Seq<u8>>)
    requires
        req.method != "GET".spec_bytes(),
        req.method != "POST".spec_bytes(),
    ensures
        route(req, root) == ActionView::Respond(bare_response(405)),
{
}

} // verus!
