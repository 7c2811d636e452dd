//! Requests: reading the request bytes, and parsing the request line,
//! the header fields and the URL parameters.
use vstd::prelude::*;

use crate::compression::{accepted_methods, parse_accept_encoding, CompressionMethod};
use crate::fields::{insert_all, lemma_insert_entry_distinct, lookup, TextMap};
use crate::text::{
    all_white_space,
    all_white_space_exec,
    ascii_lower,
    ascii_lower_range,
    chars_of,
    range_string,
    split,
    split_exec,
    split_once,
    split_once_exec,
};

verus! {

/// How many bytes one read from the connection asks for.
pub const READ_CHUNK: usize = 1024;

/// Why a request could not be parsed.
#[derive(Clone, Copy, Debug, PartialEq, Eq, Structural)]
pub enum RequestError {
    /// The bytes are not UTF-8.
    InvalidUtf8,
    /// The head has no line break after the request line.
    MissingRequestLine,
    /// The request line lacks the spaces around its target.
    MalformedRequestLine,
    /// A URL parameter has no `=`.
    MalformedUrlParams,
}

/// The key/value pairs of `&`-separated pieces, each split at its first
/// `=`; `None` when some piece has no `=`.
pub open spec fn param_pairs(pieces: Seq<Seq<char>>) -> Option<Seq<(Seq<char>, Seq<char>)>>
    decreases pieces.len(),
{
    if pieces.len() == 0 {
        Some(seq![])
    } else {
        match (param_pairs(pieces.drop_last()), split_once(pieces.last(), "="@)) {
            (Some(p), Some(kv)) => Some(p.push(kv)),
            _ => None,
        }
    }
}

/// The entries of a query string such as `a=b&c=d`; `None` when it is
/// malformed. A later value for a key replaces an earlier one.
pub open spec fn url_params_spec(s: Seq<char>) -> Option<Seq<(Seq<char>, Seq<char>)>> {
    if s.len() == 0 {
        Some(seq![])
    } else {
        match param_pairs(split(s, "&"@)) {
            Some(p) => Some(insert_all(seq![], p)),
            None => None,
        }
    }
}

/// The `key: value` pairs of header lines: blank lines and lines without
/// `: ` are skipped; each line is split at its first `: `.
pub open spec fn header_pairs(lines: Seq<Seq<char>>) -> Seq<(Seq<char>, Seq<char>)>
    decreases lines.len(),
{
    if lines.len() == 0 {
        seq![]
    } else {
        let rest = header_pairs(lines.drop_last());
        if all_white_space(lines.last()) {
            rest
        } else {
            match split_once(lines.last(), ": "@) {
                Some(kv) => rest.push(kv),
                None => rest,
            }
        }
    }
}

/// The header fields of a CRLF-separated header block. A later value for a
/// name replaces an earlier one.
pub open spec fn headers_spec(s: Seq<char>) -> Seq<(Seq<char>, Seq<char>)> {
    insert_all(seq![], header_pairs(split(s, "\r\n"@)))
}

/// The `Accept-Encoding` value, looked up under three spellings in turn.
pub open spec fn accept_encoding_value(h: Seq<(Seq<char>, Seq<char>)>) -> Option<Seq<char>> {
    match lookup(h, "accept-encoding"@) {
        Some(v) => Some(v),
        None => match lookup(h, "Accept-Encoding"@) {
            Some(v) => Some(v),
            None => lookup(h, "Accept-encoding"@),
        },
    }
}

/// The codings a client with header fields `h` accepts.
pub open spec fn accepted_from_headers(h: Seq<(Seq<char>, Seq<char>)>) -> Option<
    Seq<CompressionMethod>,
> {
    match accept_encoding_value(h) {
        Some(v) => Some(accepted_methods(v)),
        None => None,
    }
}

/// The head (before the first blank line) and the body of a request.
pub open spec fn head_and_body(t: Seq<char>) -> (Seq<char>, Seq<char>) {
    match split_once(t, "\r\n\r\n"@) {
        Some(p) => p,
        None => (t, seq![]),
    }
}

/// The method, the target and the header block of a head.
pub open spec fn request_line_parts(head: Seq<char>) -> Result<
    (Seq<char>, Seq<char>, Seq<char>),
    RequestError,
> {
    match split_once(head, "\r\n"@) {
        None => Err(RequestError::MissingRequestLine),
        Some((line, hdrs)) => match split_once(line, " "@) {
            None => Err(RequestError::MalformedRequestLine),
            Some((m, rest)) => match split_once(rest, " "@) {
                None => Err(RequestError::MalformedRequestLine),
                Some((target, _)) => Ok((m, target, hdrs)),
            },
        },
    }
}

/// The path and the query string of a target.
pub open spec fn path_and_query(target: Seq<char>) -> (Seq<char>, Seq<char>) {
    match split_once(target, "?"@) {
        Some(p) => p,
        None => (target, seq![]),
    }
}

/// What a parsed request holds, as plain values: the lowercased method,
/// the path, the URL parameters, the header fields, the body (`None` when
/// empty) and the codings the client accepts.
pub struct RequestModel {
    pub method: Seq<char>,
    pub path: Seq<char>,
    pub url_params: Seq<(Seq<char>, Seq<char>)>,
    pub headers: Seq<(Seq<char>, Seq<char>)>,
    pub body: Option<Seq<char>>,
    pub accepted: Option<Seq<CompressionMethod>>,
}

/// The outcome of parsing the text of a request.
pub open spec fn request_outcome(t: Seq<char>) -> Result<RequestModel, RequestError> {
    let (head, body) = head_and_body(t);
    match request_line_parts(head) {
        Err(e) => Err(e),
        Ok((m, target, hdrs)) => {
            let (path, query) = path_and_query(target);
            match url_params_spec(query) {
                None => Err(RequestError::MalformedUrlParams),
                Some(params) => {
                    let h = headers_spec(hdrs);
                    Ok(
                        RequestModel {
                            method: ascii_lower(m),
                            path,
                            url_params: params,
                            headers: h,
                            body: if body.len() == 0 {
                                None
                            } else {
                                Some(body)
                            },
                            accepted: accepted_from_headers(h),
                        },
                    )
                },
            }
        },
    }
}

/// What a handler receives: the header fields, the body (if not empty) and
/// the URL parameters.
#[derive(Debug)]
pub struct Request {
    pub headers: TextMap,
    pub body: Option<String>,
    pub url_params: TextMap,
}

impl Request {
    /// A request with these parts.
    pub fn new(headers: TextMap, body: Option<String>, url_params: TextMap) -> (r: Request)
        ensures
            r.headers@ == headers@,
            r.body == body,
            r.url_params@ == url_params@,
    {
        Request { headers, body, url_params }
    }
}

/// A parsed request: the lowercased method, the path, what the handler
/// receives, and the codings the client accepts.
pub struct ParsedRequest {
    pub method: String,
    pub path: String,
    pub request: Request,
    pub accepted: Option<Vec<CompressionMethod>>,
}

/// The plain values a parsed request holds.
pub open spec fn parsed_model(p: ParsedRequest) -> RequestModel {
    RequestModel {
        method: p.method@,
        path: p.path@,
        url_params: p.request.url_params@,
        headers: p.request.headers@,
        body: match p.request.body {
            Some(b) => Some(b@),
            None => None,
        },
        accepted: match p.accepted {
            Some(v) => Some(v@),
            None => None,
        },
    }
}

/// The characters `s[a..b]` in a fresh vector.
fn sub_chars(s: &Vec<char>, a: usize, b: usize) -> (r: Vec<char>)
    requires
        a <= b <= s@.len(),
    ensures
        r@ == s@.subrange(a as int, b as int),
{
    let mut r: Vec<char> = Vec::new();
    let mut i: usize = a;
    while i < b
        invariant
            a <= i <= b,
            b <= s@.len(),
            r@ == s@.subrange(a as int, i as int),
        decreases b - i,
    {
        r.push(s[i]);
        assert(s@.subrange(a as int, i + 1) =~= s@.subrange(a as int, i as int).push(s@[i as int]));
        i = i + 1;
    }
    r
}

proof fn lemma_param_pairs_none_stays(ps: Seq<Seq<char>>, i: int, j: int)
    requires
        0 <= i <= j <= ps.len(),
        param_pairs(ps.take(i)) is None,
    ensures
        param_pairs(ps.take(j)) is None,
    decreases j - i,
{
    if j > i {
        lemma_param_pairs_none_stays(ps, i, j - 1);
        assert(ps.take(j).drop_last() =~= ps.take(j - 1));
    }
}

/// The entries of a query string such as `a=b&c=d`: `None` when a piece has
/// no `=`; an empty string gives no entry.
pub fn parse_url_params(input: &str) -> (r: Option<TextMap>)
    ensures
        match r {
            Some(m) => url_params_spec(input@) == Some(m@),
            None => url_params_spec(input@) is None,
        },
{
    let s = chars_of(input);
    if s.len() == 0 {
        return Some(TextMap::new());
    }
    let amp = chars_of("&");
    let eq = chars_of("=");
    proof {
        reveal_strlit("&");
        reveal_strlit("=");
    }
    let pieces = split_exec(&s, &amp);
    let ghost ps = split(s@, amp@);
    let ghost mut pairs: Seq<(Seq<char>, Seq<char>)> = seq![];
    let mut m = TextMap::new();
    let mut i: usize = 0;
    assert(ps.take(0) =~= Seq::<Seq<char>>::empty());
    while i < pieces.len()
        invariant
            i <= pieces@.len(),
            pieces@.len() == ps.len(),
            ps == split(s@, amp@),
            eq@ == "="@,
            eq@.len() == 1,
            amp@ == "&"@,
            s@ == input@,
            s@.len() > 0,
            forall|k: int|
                0 <= k < pieces@.len() ==> {
                    &&& (#[trigger] pieces@[k]).0 <= pieces@[k].1 <= s@.len()
                    &&& ps[k] == s@.subrange(pieces@[k].0 as int, pieces@[k].1 as int)
                },
            param_pairs(ps.take(i as int)) == Some(pairs),
            m@ == insert_all(seq![], pairs),
        decreases pieces@.len() - i,
    {
        let (a, b) = pieces[i];
        let piece = sub_chars(&s, a, b);
        assert(ps.take(i + 1).drop_last() =~= ps.take(i as int));
        assert(ps.take(i + 1).last() == piece@);
        match split_once_exec(&piece, &eq) {
            None => {
                proof {
                    lemma_param_pairs_none_stays(ps, i + 1, ps.len() as int);
                    assert(ps.take(ps.len() as int) =~= ps);
                }
                return None;
            },
            Some((j, k)) => {
                let key = range_string(&piece, 0, j);
                let value = range_string(&piece, k, piece.len());
                let ghost old_pairs = pairs;
                proof {
                    assert(piece@.take(j as int) =~= piece@.subrange(0, j as int));
                    assert(piece@.skip(k as int) =~= piece@.subrange(k as int, piece@.len() as int));
                    pairs = pairs.push((key@, value@));
                    assert(pairs.drop_last() =~= old_pairs);
                }
                m.insert(key, value);
            },
        }
        i = i + 1;
    }
    assert(ps.take(ps.len() as int) =~= ps);
    Some(m)
}

/// The header fields of a CRLF-separated header block.
pub fn parse_headers(headers: &str) -> (r: TextMap)
    ensures
        r@ == headers_spec(headers@),
{
    let s = chars_of(headers);
    let crlf = chars_of("\r\n");
    let sep = chars_of(": ");
    proof {
        reveal_strlit("\r\n");
        reveal_strlit(": ");
    }
    let lines = split_exec(&s, &crlf);
    let ghost ls = split(s@, crlf@);
    let ghost mut pairs: Seq<(Seq<char>, Seq<char>)> = seq![];
    let mut m = TextMap::new();
    let mut i: usize = 0;
    assert(ls.take(0) =~= Seq::<Seq<char>>::empty());
    while i < lines.len()
        invariant
            i <= lines@.len(),
            lines@.len() == ls.len(),
            ls == split(s@, crlf@),
            sep@ == ": "@,
            sep@.len() == 2,
            forall|k: int|
                0 <= k < lines@.len() ==> {
                    &&& (#[trigger] lines@[k]).0 <= lines@[k].1 <= s@.len()
                    &&& ls[k] == s@.subrange(lines@[k].0 as int, lines@[k].1 as int)
                },
            header_pairs(ls.take(i as int)) == pairs,
            m@ == insert_all(seq![], pairs),
        decreases lines@.len() - i,
    {
        let (a, b) = lines[i];
        assert(ls.take(i + 1).drop_last() =~= ls.take(i as int));
        assert(ls.take(i + 1).last() == s@.subrange(a as int, b as int));
        if !all_white_space_exec(&s, a, b) {
            let line = sub_chars(&s, a, b);
            match split_once_exec(&line, &sep) {
                None => {},
                Some((j, k)) => {
                    let key = range_string(&line, 0, j);
                    let value = range_string(&line, k, line.len());
                    let ghost old_pairs = pairs;
                    proof {
                        assert(line@.take(j as int) =~= line@.subrange(0, j as int));
                        assert(line@.skip(k as int) =~= line@.subrange(
                            k as int,
                            line@.len() as int,
                        ));
                        pairs = pairs.push((key@, value@));
                        assert(pairs.drop_last() =~= old_pairs);
                    }
                    m.insert(key, value);
                },
            }
        }
        i = i + 1;
    }
    assert(ls.take(ls.len() as int) =~= ls);
    m
}

/// The `Accept-Encoding` value, looked up under three spellings in turn.
pub fn accept_encoding(headers: &TextMap) -> (r: Option<&String>)
    ensures
        match r {
            Some(v) => accept_encoding_value(headers@) == Some(v@),
            None => accept_encoding_value(headers@) is None,
        },
{
    match headers.get("accept-encoding") {
        Some(v) => Some(v),
        None => match headers.get("Accept-Encoding") {
            Some(v) => Some(v),
            None => headers.get("Accept-encoding"),
        },
    }
}

/// The codings a client with these header fields accepts.
pub fn accepted_codings(headers: &TextMap) -> (r: Option<Vec<CompressionMethod>>)
    ensures
        match r {
            Some(v) => accepted_from_headers(headers@) == Some(v@),
            None => accepted_from_headers(headers@) is None,
        },
{
    match accept_encoding(headers) {
        Some(v) => Some(parse_accept_encoding(v.as_str())),
        None => None,
    }
}

/// Parses the text of a request.
pub fn parse_request(text: &str) -> (r: Result<ParsedRequest, RequestError>)
    ensures
        match r {
            Ok(p) => request_outcome(text@) == Ok::<RequestModel, RequestError>(parsed_model(p)),
            Err(e) => request_outcome(text@) == Err::<RequestModel, RequestError>(e),
        },
{
    let t = chars_of(text);
    let blank = chars_of("\r\n\r\n");
    let crlf = chars_of("\r\n");
    let space = chars_of(" ");
    let question = chars_of("?");
    proof {
        reveal_strlit("\r\n\r\n");
        reveal_strlit("\r\n");
        reveal_strlit(" ");
        reveal_strlit("?");
    }
    let (head, body) = match split_once_exec(&t, &blank) {
        Some((j, k)) => {
            let h = sub_chars(&t, 0, j);
            let b = range_string(&t, k, t.len());
            assert(t@.take(j as int) =~= h@);
            assert(t@.skip(k as int) =~= b@);
            (h, b)
        },
        None => {
            let h = sub_chars(&t, 0, t.len());
            assert(h@ =~= t@);
            (h, String::new())
        },
    };
    assert(head_and_body(t@) == (head@, body@));
    let (line, hdrs) = match split_once_exec(&head, &crlf) {
        None => {
            return Err(RequestError::MissingRequestLine);
        },
        Some((j, k)) => {
            let l = sub_chars(&head, 0, j);
            let h = range_string(&head, k, head.len());
            assert(head@.take(j as int) =~= l@);
            assert(head@.skip(k as int) =~= h@);
            (l, h)
        },
    };
    let (method_end, rest) = match split_once_exec(&line, &space) {
        None => {
            return Err(RequestError::MalformedRequestLine);
        },
        Some((j, k)) => {
            let r = sub_chars(&line, k, line.len());
            assert(line@.skip(k as int) =~= r@);
            assert(line@.take(j as int) =~= line@.subrange(0, j as int));
            (j, r)
        },
    };
    let target = match split_once_exec(&rest, &space) {
        None => {
            return Err(RequestError::MalformedRequestLine);
        },
        Some((j, _)) => {
            let tg = sub_chars(&rest, 0, j);
            assert(rest@.take(j as int) =~= tg@);
            tg
        },
    };
    let method = ascii_lower_range(&line, 0, method_end);
    let (path, query) = match split_once_exec(&target, &question) {
        Some((j, k)) => {
            let p = range_string(&target, 0, j);
            let q = range_string(&target, k, target.len());
            assert(target@.take(j as int) =~= p@);
            assert(target@.skip(k as int) =~= q@);
            (p, q)
        },
        None => {
            let p = range_string(&target, 0, target.len());
            assert(p@ =~= target@);
            (p, String::new())
        },
    };
    assert(path_and_query(target@) == (path@, query@));
    let url_params = match parse_url_params(query.as_str()) {
        None => {
            return Err(RequestError::MalformedUrlParams);
        },
        Some(m) => m,
    };
    let headers = parse_headers(hdrs.as_str());
    let accepted = accepted_codings(&headers);
    let body = if body.as_str().is_empty() {
        None
    } else {
        Some(body)
    };
    let p = ParsedRequest {
        method,
        path,
        request: Request { headers, body, url_params },
        accepted,
    };
    Ok(p)
}

/// `String::from_utf8`: the string whose UTF-8 encoding is `bytes`, when
/// `bytes` is valid UTF-8.
#[verifier::external_body]
fn string_from_utf8(bytes: Vec<u8>) -> (r: Option<String>)
    ensures
        r is Some <==> vstd::utf8::valid_utf8(bytes@),
        r matches Some(s) ==> vstd::utf8::encode_utf8(s@) == bytes@,
{
    String::from_utf8(bytes).ok()
}

/// The text of a request, when its bytes are UTF-8.
pub fn decode_request(bytes: Vec<u8>) -> (r: Result<String, RequestError>)
    ensures
        match r {
            Ok(s) => vstd::utf8::valid_utf8(bytes@) && s@ == vstd::utf8::decode_utf8(bytes@),
            Err(e) => !vstd::utf8::valid_utf8(bytes@) && e == RequestError::InvalidUtf8,
        },
{
    match string_from_utf8(bytes) {
        Some(s) => {
            proof {
                vstd::utf8::encode_utf8_decode_utf8(s@);
            }
            Ok(s)
        },
        None => Err(RequestError::InvalidUtf8),
    }
}

/// Decodes and parses the bytes of a request.
pub fn parse_request_bytes(bytes: Vec<u8>) -> (r: Result<ParsedRequest, RequestError>)
    ensures
        !vstd::utf8::valid_utf8(bytes@) ==> r == Err::<ParsedRequest, RequestError>(
            RequestError::InvalidUtf8,
        ),
        vstd::utf8::valid_utf8(bytes@) ==> match r {
            Ok(p) => request_outcome(vstd::utf8::decode_utf8(bytes@)) == Ok::<
                RequestModel,
                RequestError,
            >(parsed_model(p)),
            Err(e) => request_outcome(vstd::utf8::decode_utf8(bytes@)) == Err::<
                RequestModel,
                RequestError,
            >(e),
        },
{
    match decode_request(bytes) {
        Err(e) => Err(e),
        Ok(s) => parse_request(s.as_str()),
    }
}

/// Adds a chunk read from the connection to the request bytes and says
/// whether to read again: only after a full chunk. An empty chunk ends the
/// request.
pub fn absorb_chunk(req: &mut Vec<u8>, chunk: &[u8]) -> (more: bool)
    ensures
        final(req)@ == old(req)@ + chunk@,
        more == (chunk@.len() >= READ_CHUNK),
{
    let mut i: usize = 0;
    let ghost before = req@;
    while i < chunk.len()
        invariant
            i <= chunk@.len(),
            req@ == before + chunk@.take(i as int),
        decreases chunk@.len() - i,
    {
        req.push(chunk[i]);
        assert(chunk@.take(i + 1) =~= chunk@.take(i as int).push(chunk@[i as int]));
        i = i + 1;
    }
    assert(chunk@.take(chunk@.len() as int) =~= chunk@);
    chunk.len() >= READ_CHUNK
}

} // verus!
