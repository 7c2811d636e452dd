//! Responses: status, header fields, body compression, and the bytes of
//! the status line and header block.
use vstd::prelude::*;
use vstd::string::*;

use crate::codec::{brotli_compress, brotli_result, gzip_compress, gzip_result, opt_bytes};
use crate::compression::{
    enabled_methods,
    first_accepted,
    method_token,
    pick_method,
    CompressionMethod,
};
use crate::fields::{entry_view, insert_entry, TextMap};
use crate::text::{dec_int, dec_nat, push_dec_int, push_dec_nat};

verus! {

/// The reason phrase sent with a status code.
pub open spec fn reason_phrase(code: int) -> Seq<char> {
    if code == 200 {
        "OK"@
    } else if code == 201 {
        "Created"@
    } else if code == 202 {
        "Accepted"@
    } else if code == 204 {
        "No Content"@
    } else if code == 301 {
        "Moved Permanently"@
    } else if code == 302 {
        "Found"@
    } else if code == 304 {
        "Not Modified"@
    } else if code == 400 {
        "Bad Request"@
    } else if code == 401 {
        "Unauthorized"@
    } else if code == 403 {
        "Forbidden"@
    } else if code == 404 {
        "Not Found"@
    } else if code == 405 {
        "Method Not Allowed"@
    } else if code == 408 {
        "Request Timeout"@
    } else if code == 409 {
        "Conflict"@
    } else if code == 410 {
        "Gone"@
    } else if code == 418 {
        "I'm a teapot"@
    } else if code == 429 {
        "Too Many Requests"@
    } else if code == 500 {
        "Internal Server Error"@
    } else if code == 501 {
        "Not Implemented"@
    } else if code == 502 {
        "Bad Gateway"@
    } else if code == 503 {
        "Service Unavailable"@
    } else if code == 504 {
        "Gateway Timeout"@
    } else {
        "Unknown Status Code"@
    }
}

/// One `key: value` line per entry, each ended by CRLF, in order.
pub open spec fn header_lines(e: Seq<(Seq<char>, Seq<char>)>) -> Seq<char>
    decreases e.len(),
{
    if e.len() == 0 {
        seq![]
    } else {
        header_lines(e.drop_last()) + e.last().0 + ": "@ + e.last().1 + "\r\n"@
    }
}

/// The status line and header block of a response whose body has `len` bytes.
pub open spec fn response_head(
    status: int,
    text: Seq<char>,
    len: nat,
    headers: Seq<(Seq<char>, Seq<char>)>,
) -> Seq<char> {
    "HTTP/1.1 "@ + dec_int(status) + " "@ + text + "\r\nContent-Length: "@ + dec_nat(len)
        + "\r\nServer: BootLeg-HTTP\r\n"@ + header_lines(headers) + "\r\n"@
}

/// The status line and header block of a streamed response (no length).
pub open spec fn streaming_head(
    status: int,
    text: Seq<char>,
    headers: Seq<(Seq<char>, Seq<char>)>,
) -> Seq<char> {
    "HTTP/1.1 "@ + dec_int(status) + " "@ + text + "\r\nServer: BootLeg-HTTP\r\n"@
        + header_lines(headers) + "\r\n"@
}

/// The header entries once the coding in use, if any, is announced.
pub open spec fn with_encoding(h: Seq<(Seq<char>, Seq<char>)>, used: Option<CompressionMethod>) -> Seq<
    (Seq<char>, Seq<char>),
> {
    match used {
        Some(m) => insert_entry(h, "Content-Encoding"@, method_token(m)),
        None => h,
    }
}

/// The coding chosen for a client that accepts `accepted` (`None` when it
/// sent no `Accept-Encoding`): the first of Brotli, gzip that it accepts.
pub open spec fn chosen_method(accepted: Option<Seq<CompressionMethod>>) -> Option<
    CompressionMethod,
> {
    match accepted {
        Some(ms) => first_accepted(seq![CompressionMethod::Brotli, CompressionMethod::Gzip], ms),
        None => None,
    }
}

/// What the encoder for method `m` gives for `body`: its output, or `None`
/// when it fails.
pub open spec fn encoder_result(m: CompressionMethod, body: Seq<u8>) -> Option<Seq<u8>> {
    match m {
        CompressionMethod::Brotli => brotli_result(body),
        CompressionMethod::Gzip => gzip_result(body),
    }
}

/// What `keep_encoded` returns: the encoder's output when there is some,
/// else the body.
pub open spec fn encoded_or_body(encoded: Option<Seq<u8>>, body: Seq<u8>) -> Seq<u8> {
    match encoded {
        Some(v) => if v.len() > 0 {
            v
        } else {
            body
        },
        None => body,
    }
}

/// The body sent with method `m`: the encoder's output, or the body itself
/// when the encoder fails or produces nothing.
pub open spec fn compressed_body(m: CompressionMethod, body: Seq<u8>) -> Seq<u8> {
    encoded_or_body(encoder_result(m, body), body)
}

/// Values that can be sent as a response body.
pub trait ResponseBody {
    /// The bytes sent.
    spec fn body_bytes(&self) -> Seq<u8>;

    /// The bytes sent, in a fresh vector.
    fn to_body(&self) -> (v: Vec<u8>)
        ensures
            v@ == self.body_bytes(),
    ;
}

impl<'a> ResponseBody for &'a str {
    open spec fn body_bytes(&self) -> Seq<u8> {
        vstd::utf8::encode_utf8(self@)
    }

    fn to_body(&self) -> (v: Vec<u8>) {
        self.as_bytes_vec()
    }
}

impl ResponseBody for String {
    open spec fn body_bytes(&self) -> Seq<u8> {
        vstd::utf8::encode_utf8(self@)
    }

    fn to_body(&self) -> (v: Vec<u8>) {
        self.as_str().as_bytes_vec()
    }
}

impl ResponseBody for Vec<u8> {
    open spec fn body_bytes(&self) -> Seq<u8> {
        self@
    }

    fn to_body(&self) -> (v: Vec<u8>) {
        vstd::slice::slice_to_vec(self.as_slice())
    }
}

impl<'a> ResponseBody for &'a [u8] {
    open spec fn body_bytes(&self) -> Seq<u8> {
        self@
    }

    fn to_body(&self) -> (v: Vec<u8>) {
        vstd::slice::slice_to_vec(*self)
    }
}

impl<'a, const N: usize> ResponseBody for &'a [u8; N] {
    open spec fn body_bytes(&self) -> Seq<u8> {
        self@
    }

    fn to_body(&self) -> (v: Vec<u8>) {
        vstd::slice::slice_to_vec(self.as_slice())
    }
}

impl<const N: usize> ResponseBody for [u8; N] {
    open spec fn body_bytes(&self) -> Seq<u8> {
        self@
    }

    fn to_body(&self) -> (v: Vec<u8>) {
        vstd::slice::slice_to_vec(self.as_slice())
    }
}

impl<'a> ResponseBody for &'a String {
    open spec fn body_bytes(&self) -> Seq<u8> {
        vstd::utf8::encode_utf8(self@)
    }

    fn to_body(&self) -> (v: Vec<u8>) {
        self.as_str().as_bytes_vec()
    }
}

impl<'a> ResponseBody for &'a Vec<u8> {
    open spec fn body_bytes(&self) -> Seq<u8> {
        self@
    }

    fn to_body(&self) -> (v: Vec<u8>) {
        vstd::slice::slice_to_vec(self.as_slice())
    }
}

/// The reason phrase sent with a status code.
pub fn status_text(code: i32) -> (r: &'static str)
    ensures
        r@ == reason_phrase(code as int),
{
    match code {
        200 => "OK",
        201 => "Created",
        202 => "Accepted",
        204 => "No Content",
        301 => "Moved Permanently",
        302 => "Found",
        304 => "Not Modified",
        400 => "Bad Request",
        401 => "Unauthorized",
        403 => "Forbidden",
        404 => "Not Found",
        405 => "Method Not Allowed",
        408 => "Request Timeout",
        409 => "Conflict",
        410 => "Gone",
        418 => "I'm a teapot",
        429 => "Too Many Requests",
        500 => "Internal Server Error",
        501 => "Not Implemented",
        502 => "Bad Gateway",
        503 => "Service Unavailable",
        504 => "Gateway Timeout",
        _ => "Unknown Status Code",
    }
}

/// The header block lines of `headers`: `key: value` and CRLF per entry.
pub fn join_header_lines(headers: &TextMap) -> (r: String)
    ensures
        r@ == header_lines(headers@),
{
    let entries = headers.entries();
    let ghost e = headers@;
    let mut r = String::new();
    let mut i: usize = 0;
    while i < entries.len()
        invariant
            i <= entries@.len(),
            entries@.map_values(|p: (String, String)| entry_view(p)) == e,
            r@ == header_lines(e.take(i as int)),
        decreases entries@.len() - i,
    {
        r.append(entries[i].0.as_str());
        r.append(": ");
        r.append(entries[i].1.as_str());
        r.append("\r\n");
        assert(e.take(i + 1).drop_last() =~= e.take(i as int));
        assert(e[i as int] == entry_view(entries@[i as int]));
        i = i + 1;
    }
    assert(e.take(e.len() as int) =~= e);
    r
}

/// The status line and header block, with `Content-Length` giving the body's
/// length and `Content-Encoding` announcing `used_enc`, and the body.
pub fn build_response(
    status: i32,
    status_text: &str,
    headers: TextMap,
    body: Vec<u8>,
    used_enc: Option<CompressionMethod>,
) -> (r: (String, Vec<u8>))
    ensures
        r.0@ == response_head(
            status as int,
            status_text@,
            body@.len(),
            with_encoding(headers@, used_enc),
        ),
        r.1@ == body@,
{
    let ghost given = headers@;
    let mut headers = headers;
    match used_enc {
        Some(m) => {
            let token = m.token();
            headers.insert(String::from_str("Content-Encoding"), String::from_str(token));
        },
        None => {},
    }
    let mut head = String::new();
    head.append("HTTP/1.1 ");
    push_dec_int(&mut head, status);
    head.append(" ");
    head.append(status_text);
    head.append("\r\nContent-Length: ");
    push_dec_nat(&mut head, body.len() as u64);
    head.append("\r\nServer: BootLeg-HTTP\r\n");
    let lines = join_header_lines(&headers);
    head.append(lines.as_str());
    head.append("\r\n");
    assert(head@ =~= response_head(
        status as int,
        status_text@,
        body@.len(),
        with_encoding(given, used_enc),
    ));
    (head, body)
}

/// The status line and header block of a streamed response, as bytes.
pub fn build_streaming_response(status: i32, status_text: &str, headers: &TextMap) -> (r: Vec<u8>)
    ensures
        r@ == vstd::utf8::encode_utf8(streaming_head(status as int, status_text@, headers@)),
{
    let mut head = String::new();
    head.append("HTTP/1.1 ");
    push_dec_int(&mut head, status);
    head.append(" ");
    head.append(status_text);
    head.append("\r\nServer: BootLeg-HTTP\r\n");
    let lines = join_header_lines(headers);
    head.append(lines.as_str());
    head.append("\r\n");
    assert(head@ =~= streaming_head(status as int, status_text@, headers@));
    head.as_str().as_bytes_vec()
}

/// The header fields of an event stream.
pub open spec fn event_stream_fields() -> Seq<(Seq<char>, Seq<char>)> {
    seq![
        ("Content-Type"@, "text/event-stream"@),
        ("Connection"@, "close"@),
        ("Cache-Control"@, "no-cache"@),
        ("Access-Control-Allow-Origin"@, "*"@),
    ]
}

/// The header fields of an event stream.
pub fn event_stream_headers() -> (r: TextMap)
    ensures
        r@ == event_stream_fields(),
{
    proof {
        reveal_strlit("Content-Type");
        reveal_strlit("Connection");
        reveal_strlit("Cache-Control");
        reveal_strlit("Access-Control-Allow-Origin");
    }
    let ghost k1 = "Content-Type"@;
    let ghost k2 = "Connection"@;
    let ghost k3 = "Cache-Control"@;
    let ghost k4 = "Access-Control-Allow-Origin"@;
    assert(k1.len() == 12 && k2.len() == 10 && k3.len() == 13 && k4.len() == 27);
    let mut m = TextMap::new();
    m.insert(String::from_str("Content-Type"), String::from_str("text/event-stream"));
    assert(m@ =~= seq![(k1, "text/event-stream"@)]);
    m.insert(String::from_str("Connection"), String::from_str("close"));
    assert(m@ =~= seq![(k1, "text/event-stream"@), (k2, "close"@)]);
    m.insert(String::from_str("Cache-Control"), String::from_str("no-cache"));
    assert(m@ =~= seq![(k1, "text/event-stream"@), (k2, "close"@), (k3, "no-cache"@)]);
    m.insert(String::from_str("Access-Control-Allow-Origin"), String::from_str("*"));
    assert(m@ =~= event_stream_fields());
    m
}

/// The head of an event stream: status 200 and its header fields, as bytes.
pub fn event_stream_head() -> (r: Vec<u8>)
    ensures
        r@ == vstd::utf8::encode_utf8(streaming_head(200, "OK"@, event_stream_fields())),
{
    let headers = event_stream_headers();
    build_streaming_response(200, "OK", &headers)
}

/// One server-sent event carrying `data`.
pub fn sse_event(data: &str) -> (r: String)
    ensures
        r@ == "data: "@ + data@ + "\n\n"@,
{
    let mut r = String::new();
    r.append("data: ");
    r.append(data);
    r.append("\n\n");
    r
}

/// The encoder's output when it produced some, else the body.
pub fn keep_encoded(encoded: Option<Vec<u8>>, body: Vec<u8>) -> (r: Vec<u8>)
    ensures
        r@ == encoded_or_body(opt_bytes(encoded), body@),
{
    match encoded {
        Some(v) => if v.len() > 0 {
            v
        } else {
            body
        },
        None => body,
    }
}

/// A response under construction: its header fields, its status, and the
/// codings the client accepts.
pub struct Response {
    headers: TextMap,
    status: Option<i32>,
    allowed_compressions: Option<Vec<CompressionMethod>>,
}

impl Response {
    /// The header fields set so far.
    pub closed spec fn header_entries(&self) -> Seq<(Seq<char>, Seq<char>)> {
        self.headers@
    }

    /// The status set so far.
    pub closed spec fn status_code(&self) -> Option<i32> {
        self.status
    }

    /// The codings the client accepts (`None` when it named none).
    pub closed spec fn accepted(&self) -> Option<Seq<CompressionMethod>> {
        match self.allowed_compressions {
            Some(v) => Some(v@),
            None => None,
        }
    }

    /// A response with no header field, no status yet, for a client that
    /// accepts `methods`.
    pub fn new(methods: Option<Vec<CompressionMethod>>) -> (r: Response)
        ensures
            r.header_entries() == Seq::<(Seq<char>, Seq<char>)>::empty(),
            r.status_code() is None,
            r.accepted() == (match methods {
                Some(v) => Some(v@),
                None => None,
            }),
    {
        Response { headers: TextMap::new(), status: None, allowed_compressions: methods }
    }

    /// Sets the status code.
    pub fn status(&mut self, status: i32)
        ensures
            final(self).status_code() == Some(status),
            final(self).header_entries() == old(self).header_entries(),
            final(self).accepted() == old(self).accepted(),
    {
        self.status = Some(status);
    }

    /// Replaces all header fields by `headers`.
    pub fn headers(&mut self, headers: TextMap)
        ensures
            final(self).header_entries() == headers@,
            final(self).status_code() == old(self).status_code(),
            final(self).accepted() == old(self).accepted(),
    {
        self.headers = headers;
    }

    /// The body compressed with Brotli, or the body itself when the
    /// encoder fails or produces nothing.
    pub fn compress_with_brotli(&self, body: Vec<u8>) -> (r: Vec<u8>)
        ensures
            r@ == compressed_body(CompressionMethod::Brotli, body@),
    {
        let encoded = brotli_compress(body.as_slice());
        keep_encoded(encoded, body)
    }

    /// The body compressed with gzip, or the body itself when the encoder
    /// fails or produces nothing.
    pub fn compress_with_gzip(&self, body: Vec<u8>) -> (r: Vec<u8>)
        ensures
            r@ == compressed_body(CompressionMethod::Gzip, body@),
    {
        let encoded = gzip_compress(body.as_slice());
        keep_encoded(encoded, body)
    }

    /// The body compressed with `method`, or the body itself when the
    /// encoder fails or produces nothing.
    pub fn compress_with(&self, body: Vec<u8>, method: CompressionMethod) -> (r: Vec<u8>)
        ensures
            r@ == compressed_body(method, body@),
    {
        match method {
            CompressionMethod::Gzip => self.compress_with_gzip(body),
            CompressionMethod::Brotli => self.compress_with_brotli(body),
        }
    }

    /// The body to send and the coding applied: the first of Brotli, gzip
    /// that the client accepts, or none.
    pub fn compress(&self, body: Vec<u8>) -> (r: (Vec<u8>, Option<CompressionMethod>))
        ensures
            r.1 == chosen_method(self.accepted()),
            match r.1 {
                Some(m) => r.0@ == compressed_body(m, body@),
                None => r.0@ == body@,
            },
    {
        match &self.allowed_compressions {
            Some(methods) => {
                let order = enabled_methods();
                match pick_method(&order, methods) {
                    Some(m) => {
                        let data = self.compress_with(body, m);
                        (data, Some(m))
                    },
                    None => (body, None),
                }
            },
            None => (body, None),
        }
    }

    /// Finishes the response: the status line and header block, and the
    /// body, compressed when the client accepts a coding. The status is 200
    /// unless one was set.
    pub fn end<B: ResponseBody>(self, body: B) -> (r: (String, Vec<u8>))
        ensures
            ({
                let s = match self.status_code() {
                    Some(c) => c as int,
                    None => 200,
                };
                let used = chosen_method(self.accepted());
                &&& r.0@ == response_head(
                    s,
                    reason_phrase(s),
                    r.1@.len(),
                    with_encoding(self.header_entries(), used),
                )
                &&& match used {
                    Some(m) => r.1@ == compressed_body(m, body.body_bytes()),
                    None => r.1@ == body.body_bytes(),
                }
            }),
    {
        let s = match self.status {
            Some(c) => c,
            None => 200,
        };
        let bytes = body.to_body();
        let (data, method) = self.compress(bytes);
        let text = status_text(s);
        let Response { headers, status: _, allowed_compressions: _ } = self;
        build_response(s, text, headers, data, method)
    }
}

} // verus!
