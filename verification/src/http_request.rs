//! Request parsing: the request line (method, path, version), the header
//! block, and an optional fixed-length body taken from `Content-Length`.

use vstd::prelude::*;
use vstd::utf8::{decode_utf8, valid_utf8};

use crate::error::HttpError;
use crate::http_headers::{get_spec, header_line_spec, HeaderLineSpec, HttpHeaders};
use crate::strutil::{
    chars_ieq, dec_val, is_dec_digits, parse_dec, split_ws, split_ws_vec, str_ieq,
};

verus! {

/// The request methods the server understands.
#[derive(Debug, PartialEq, Eq, Structural, Clone, Copy)]
pub enum Method {
    Get,
    Post,
}

/// What a method token denotes: `GET` or `POST`, ignoring ASCII case.
pub open spec fn method_spec(tok: Seq<char>) -> Option<Method> {
    if chars_ieq(tok, "GET"@) {
        Some(Method::Get)
    } else if chars_ieq(tok, "POST"@) {
        Some(Method::Post)
    } else {
        None
    }
}

impl Method {
    /// Reads a method token, ignoring ASCII case.
    pub fn from_str(s: &str) -> (r: Result<Method, HttpError>)
        ensures
            match method_spec(s@) {
                Some(m) => r == Ok::<Method, HttpError>(m),
                None => r == Err::<Method, HttpError>(HttpError::UnsupportedMethod),
            },
    {
        if str_ieq(s, "GET") {
            Ok(Method::Get)
        } else if str_ieq(s, "POST") {
            Ok(Method::Post)
        } else {
            Err(HttpError::UnsupportedMethod)
        }
    }
}

/// What a request line denotes: its first three whitespace-delimited tokens
/// as method, path and version, or the first thing missing.
pub open spec fn request_line_spec(line: Seq<char>) -> Result<
    (Method, Seq<char>, Seq<char>),
    HttpError,
> {
    let toks = split_ws(line);
    if toks.len() == 0 {
        Err(HttpError::MissingMethod)
    } else {
        match method_spec(toks[0]) {
            None => Err(HttpError::UnsupportedMethod),
            Some(m) => if toks.len() == 1 {
                Err(HttpError::MissingPath)
            } else if toks.len() == 2 {
                Err(HttpError::MissingVersion)
            } else {
                Ok((m, toks[1], toks[2]))
            },
        }
    }
}

/// Splits a request line into method, path and version. Tokens beyond the
/// third are ignored; the version's shape is not checked.
pub fn parse_request_line(line: &str) -> (r: Result<(Method, String, String), HttpError>)
    ensures
        match r {
            Ok(t) => request_line_spec(line@) == Ok::<(Method, Seq<char>, Seq<char>), HttpError>(
                (t.0, t.1@, t.2@),
            ),
            Err(e) => request_line_spec(line@) == Err::<(Method, Seq<char>, Seq<char>), HttpError>(
                e,
            ),
        },
{
    let toks = split_ws_vec(line);
    if toks.len() == 0 {
        return Err(HttpError::MissingMethod);
    }
    proof {
        assert(toks@[0]@ == split_ws(line@)[0]);
    }
    let m = match Method::from_str(toks[0].as_str()) {
        Ok(m) => m,
        Err(e) => {
            return Err(e);
        },
    };
    if toks.len() == 1 {
        return Err(HttpError::MissingPath);
    }
    if toks.len() == 2 {
        return Err(HttpError::MissingVersion);
    }
    proof {
        assert(toks@[1]@ == split_ws(line@)[1]);
        assert(toks@[2]@ == split_ws(line@)[2]);
    }
    Ok((m, toks[1].clone(), toks[2].clone()))
}

/// The declared body length: the value of `Content-Length` when it is a
/// plain decimal number that fits a `usize`; anything else means no body.
pub open spec fn content_length_spec(hs: Seq<(Seq<char>, Seq<char>)>) -> Option<int> {
    match get_spec(hs, "Content-Length"@) {
        Some(v) => if is_dec_digits(v) && dec_val(v) <= usize::MAX {
            Some(dec_val(v) as int)
        } else {
            None
        },
        None => None,
    }
}

/// Reads the declared body length out of a header table.
pub fn content_length(headers: &HttpHeaders) -> (r: Option<usize>)
    ensures
        match r {
            Some(v) => content_length_spec(headers@) == Some(v as int),
            None => content_length_spec(headers@) is None,
        },
{
    match headers.get("Content-Length") {
        Some(v) => parse_dec(v),
        None => None,
    }
}

/// The abstract content of a request.
#[verifier::ext_equal]
pub struct RequestView {
    pub method: Method,
    pub path: Seq<char>,
    pub version: Seq<char>,
    pub headers: Seq<(Seq<char>, Seq<char>)>,
    pub body: Option<Seq<u8>>,
}

/// A parsed request. Built once from the wire and read-only afterwards.
#[derive(Debug)]
pub struct HttpRequest {
    pub method: Method,
    pub path: String,
    pub version: String,
    pub headers: HttpHeaders,
    pub body: Option<Vec<u8>>,
}

impl View for HttpRequest {
    type V = RequestView;

    open spec fn view(&self) -> RequestView {
        RequestView {
            method: self.method,
            path: self.path@,
            version: self.version@,
            headers: self.headers@,
            body: match self.body {
                Some(b) => Some(b@),
                None => None,
            },
        }
    }
}

/// End (exclusive) of the line starting at `p`: just past the first line
/// feed, or the end of the input.
pub open spec fn line_end(bytes: Seq<u8>, p: int) -> int
    decreases bytes.len() - p,
{
    if p < 0 || p >= bytes.len() {
        bytes.len() as int
    } else if bytes[p] == 10u8 {
        p + 1
    } else {
        line_end(bytes, p + 1)
    }
}

pub proof fn lemma_line_end(bytes: Seq<u8>, p: int)
    requires
        0 <= p <= bytes.len(),
    ensures
        p <= line_end(bytes, p) <= bytes.len(),
        p < bytes.len() ==> p < line_end(bytes, p),
    decreases bytes.len() - p,
{
    if p < bytes.len() && bytes[p] != 10u8 {
        lemma_line_end(bytes, p + 1);
    }
}

/// If the bytes from `p` up to `k` hold no line feed and `k` is a line feed
/// (or the end), the line starting at `p` ends just past `k`.
pub proof fn lemma_line_end_at(bytes: Seq<u8>, p: int, k: int)
    requires
        0 <= p <= k <= bytes.len(),
        forall|j: int| p <= j < k ==> bytes[j] != 10u8,
        k < bytes.len() ==> bytes[k] == 10u8,
    ensures
        line_end(bytes, p) == if k == bytes.len() {
            bytes.len() as int
        } else {
            k + 1
        },
    decreases k - p,
{
    if p < k {
        lemma_line_end_at(bytes, p + 1, k);
    }
}

/// Parses header lines from `p` on until a blank line or the end of the
/// input: the entries in order, and the position just past the block.
pub open spec fn headers_spec(bytes: Seq<u8>, p: int) -> Result<
    (Seq<(Seq<char>, Seq<char>)>, int),
    HttpError,
>
    decreases bytes.len() - p,
    via headers_spec_decreases
{
    if p < 0 || p >= bytes.len() {
        Ok((Seq::<(Seq<char>, Seq<char>)>::empty(), bytes.len() as int))
    } else {
        let e = line_end(bytes, p);
        let raw = bytes.subrange(p, e);
        if !valid_utf8(raw) {
            Err(HttpError::InvalidUtf8)
        } else {
            match header_line_spec(decode_utf8(raw)) {
                HeaderLineSpec::End => Ok((Seq::<(Seq<char>, Seq<char>)>::empty(), e)),
                HeaderLineSpec::NoColon => Err(HttpError::HeaderMissingColon),
                HeaderLineSpec::Entry { name, value } => match headers_spec(bytes, e) {
                    Ok(rest) => Ok((seq![(name, value)] + rest.0, rest.1)),
                    Err(er) => Err(er),
                },
            }
        }
    }
}

#[via_fn]
proof fn headers_spec_decreases(bytes: Seq<u8>, p: int) {
    if 0 <= p < bytes.len() {
        lemma_line_end(bytes, p);
    }
}

/// The request denoted by raw connection bytes: the first line as request
/// line, then the header block, then — when a well-formed `Content-Length`
/// is declared — exactly that many body bytes. Trailing bytes are ignored.
pub open spec fn request_spec(bytes: Seq<u8>) -> Result<RequestView, HttpError> {
    let e = line_end(bytes, 0);
    let raw = bytes.subrange(0, e);
    if !valid_utf8(raw) {
        Err(HttpError::InvalidUtf8)
    } else {
        match request_line_spec(decode_utf8(raw)) {
            Err(er) => Err(er),
            Ok(rl) => match headers_spec(bytes, e) {
                Err(er) => Err(er),
                Ok(hs) => match content_length_spec(hs.0) {
                    Some(n) => if hs.1 + n <= bytes.len() {
                        Ok(
                            RequestView {
                                method: rl.0,
                                path: rl.1,
                                version: rl.2,
                                headers: hs.0,
                                body: Some(bytes.subrange(hs.1, hs.1 + n)),
                            },
                        )
                    } else {
                        Err(HttpError::UnexpectedEnd)
                    },
                    None => Ok(
                        RequestView {
                            method: rl.0,
                            path: rl.1,
                            version: rl.2,
                            headers: hs.0,
                            body: None,
                        },
                    ),
                },
            },
        }
    }
}

/// Relies on `String::from_utf8`: it succeeds exactly on valid UTF-8 input
/// and decodes the bytes to the characters they encode.
#[verifier::external_body]
fn utf8_string(v: Vec<u8>) -> (r: Option<String>)
    ensures
        match r {
            Some(s) => valid_utf8(v@) && s@ == decode_utf8(v@),
            None => !valid_utf8(v@),
        },
{
    String::from_utf8(v).ok()
}

/// Index just past the first line feed at or after `p`, or the end.
fn next_line_end(input: &Vec<u8>, p: usize) -> (e: usize)
    requires
        p <= input@.len(),
    ensures
        e as int == line_end(input@, p as int),
        p <= e <= input@.len(),
        p < input@.len() ==> p < e,
{
    proof {
        lemma_line_end(input@, p as int);
    }
    let n = input.len();
    let mut i = p;
    while i < n && input[i] != 10u8
        invariant
            p <= i <= n,
            n == input@.len(),
            forall|j: int| p <= j < i ==> input@[j] != 10u8,
        decreases n - i,
    {
        i += 1;
    }
    proof {
        lemma_line_end_at(input@, p as int, i as int);
    }
    if i < n {
        i + 1
    } else {
        i
    }
}

/// A copy of `input[a..b]`.
fn copy_range(input: &Vec<u8>, a: usize, b: usize) -> (r: Vec<u8>)
    requires
        a <= b <= input@.len(),
    ensures
        r@ == input@.subrange(a as int, b as int),
{
    let mut r: Vec<u8> = Vec::new();
    let mut i = a;
    while i < b
        invariant
            a <= i <= b <= input@.len(),
            r@ =~= input@.subrange(a as int, i as int),
        decreases b - i,
    {
        r.push(input[i]);
        i += 1;
        proof {
            assert(r@ =~= input@.subrange(a as int, i as int));
        }
    }
    proof {
        assert(r@ =~= input@.subrange(a as int, b as int));
    }
    r
}

impl HttpRequest {
    /// Parses one request from raw connection bytes.
    #[verifier::loop_isolation(false)]
    pub fn parse(input: &Vec<u8>) -> (r: Result<HttpRequest, HttpError>)
        ensures
            match r {
                Ok(req) => request_spec(input@) == Ok::<RequestView, HttpError>(req@),
                Err(e) => request_spec(input@) == Err::<RequestView, HttpError>(e),
            },
    {
        let n = input.len();
        let e0 = next_line_end(input, 0);
        let raw0 = copy_range(input, 0, e0);
        let ghost raw0v = raw0@;
        let line0 = match utf8_string(raw0) {
            Some(s) => s,
            None => {
                return Err(HttpError::InvalidUtf8);
            },
        };
        let rl = match parse_request_line(line0.as_str()) {
            Ok(t) => t,
            Err(e) => {
                return Err(e);
            },
        };
        let (method, path, version) = rl;

        let mut headers = HttpHeaders::new();
        let mut p = e0;
        let mut done = false;
        let mut q: usize = e0;
        while !done
            invariant
                e0 <= p <= n,
                !done ==> match headers_spec(input@, p as int) {
                    Ok(rest) => headers_spec(input@, e0 as int) == Ok::<
                        (Seq<(Seq<char>, Seq<char>)>, int),
                        HttpError,
                    >((headers@ + rest.0, rest.1)),
                    Err(er) => headers_spec(input@, e0 as int) == Err::<
                        (Seq<(Seq<char>, Seq<char>)>, int),
                        HttpError,
                    >(er),
                },
                done ==> headers_spec(input@, e0 as int) == Ok::<
                    (Seq<(Seq<char>, Seq<char>)>, int),
                    HttpError,
                >((headers@, q as int)),
                done ==> q <= n,
            decreases n - p + 1 - (done as int),
        {
            let e = next_line_end(input, p);
            let raw = copy_range(input, p, e);
            let ghost rawv = raw@;
            let line = match utf8_string(raw) {
                Some(s) => s,
                None => {
                    proof {
                        if p == n {
                            assert(rawv =~= Seq::<u8>::empty());
                            assert(valid_utf8(rawv));
                        }
                    }
                    return Err(HttpError::InvalidUtf8);
                },
            };
            proof {
                if p == n {
                    assert(rawv =~= Seq::<u8>::empty());
                    assert(line@ =~= Seq::<char>::empty());
                    assert(crate::strutil::trim_end_spec(line@) =~= Seq::<char>::empty());
                }
            }
            let ghost hs0 = headers@;
            let res = headers.add_line(line.as_str());
            match res {
                Ok(true) => {
                    q = e;
                    done = true;
                    proof {
                        assert(headers_spec(input@, p as int) == Ok::<
                            (Seq<(Seq<char>, Seq<char>)>, int),
                            HttpError,
                        >((Seq::<(Seq<char>, Seq<char>)>::empty(), e as int)));
                        assert(hs0 + Seq::<(Seq<char>, Seq<char>)>::empty() =~= hs0);
                    }
                },
                Ok(false) => {
                    proof {
                        // a non-blank line means there was input left to read
                        assert(p < n);
                        let hls = header_line_spec(line@);
                        let name = hls->Entry_name;
                        let value = hls->Entry_value;
                        match headers_spec(input@, e as int) {
                            Ok(rest) => {
                                assert(headers_spec(input@, p as int) == Ok::<
                                    (Seq<(Seq<char>, Seq<char>)>, int),
                                    HttpError,
                                >((seq![(name, value)] + rest.0, rest.1)));
                                assert(hs0 + (seq![(name, value)] + rest.0) =~= hs0.push(
                                    (name, value),
                                ) + rest.0);
                            },
                            Err(_) => {},
                        }
                    }
                    p = e;
                },
                Err(er) => {
                    proof {
                        assert(p < n);
                    }
                    return Err(er);
                },
            }
        }

        let body: Option<Vec<u8>> = match content_length(&headers) {
            Some(nb) => {
                if nb > n - q {
                    return Err(HttpError::UnexpectedEnd);
                }
                Some(copy_range(input, q, q + nb))
            },
            None => None,
        };

        let req = HttpRequest { method, path, version, headers, body };
        proof {
            assert(request_spec(input@) matches Ok(rv) && rv =~~= req@);
        }
        Ok(req)
    }
}

} // verus!
