//! Response building and serialization: a status line, a header table whose
//! first two entries are always `Content-Type` and `Content-Length`, and a
//! body, written out as HTTP/1.1 wire bytes.

use vstd::prelude::*;
use vstd::utf8::encode_utf8;

use crate::http_headers::{get_spec, HttpHeaders};
use crate::strutil::{chars_ieq, dec_digits, dec_str, dec_val, is_dec_digits, lemma_dec_digits_val};

verus! {

/// The abstract content of a response.
#[verifier::ext_equal]
pub struct ResponseView {
    pub status: Seq<char>,
    pub headers: Seq<(Seq<char>, Seq<char>)>,
    pub body: Seq<u8>,
}

/// A response, owned by the connection until fully written.
#[derive(Debug)]
pub struct HttpResponse {
    pub status_line: String,
    pub headers: HttpHeaders,
    pub body: Vec<u8>,
}

impl View for HttpResponse {
    type V = ResponseView;

    open spec fn view(&self) -> ResponseView {
        ResponseView { status: self.status_line@, headers: self.headers@, body: self.body@ }
    }
}

/// The headers a fresh response carries: `Content-Type`, then
/// `Content-Length` holding the body's byte length in decimal.
pub open spec fn initial_headers(content_type: Seq<char>, body_len: nat) -> Seq<
    (Seq<char>, Seq<char>),
> {
    seq![("Content-Type"@, content_type), ("Content-Length"@, dec_digits(body_len))]
}

/// What `HttpResponse::new` builds.
pub open spec fn response_new_spec(
    status: Seq<char>,
    content_type: Seq<char>,
    body: Seq<u8>,
) -> ResponseView {
    ResponseView { status, headers: initial_headers(content_type, body.len()), body }
}

/// Wire bytes of one header entry: `name: value` and CRLF.
pub open spec fn header_line_bytes(h: (Seq<char>, Seq<char>)) -> Seq<u8> {
    encode_utf8(h.0) + seq![58u8, 32u8] + encode_utf8(h.1) + seq![13u8, 10u8]
}

/// Wire bytes of a header block, in order of addition.
pub open spec fn header_block_bytes(hs: Seq<(Seq<char>, Seq<char>)>) -> Seq<u8>
    decreases hs.len(),
{
    if hs.len() == 0 {
        Seq::<u8>::empty()
    } else {
        header_line_bytes(hs[0]) + header_block_bytes(hs.drop_first())
    }
}

/// The full wire form of a response: status line, CRLF, the header lines,
/// a blank CRLF, then the raw body bytes.
pub open spec fn wire_bytes(v: ResponseView) -> Seq<u8> {
    encode_utf8(v.status) + seq![13u8, 10u8] + header_block_bytes(v.headers) + seq![13u8, 10u8]
        + v.body
}

/// Serializing one more header appends its line to the block.
pub proof fn lemma_header_block_push(hs: Seq<(Seq<char>, Seq<char>)>, h: (Seq<char>, Seq<char>))
    ensures
        header_block_bytes(hs.push(h)) == header_block_bytes(hs) + header_line_bytes(h),
    decreases hs.len(),
{
    if hs.len() == 0 {
        assert(hs.push(h)[0] == h);
        assert(hs.push(h).drop_first() =~= Seq::<(Seq<char>, Seq<char>)>::empty());
        assert(header_block_bytes(hs.push(h)) == header_line_bytes(h) + header_block_bytes(
            hs.push(h).drop_first(),
        ));
        assert(header_block_bytes(hs) == Seq::<u8>::empty());
        assert(header_block_bytes(hs.push(h)) =~= header_block_bytes(hs) + header_line_bytes(h));
    } else {
        assert(hs.push(h)[0] == hs[0]);
        assert(hs.push(h).drop_first() =~= hs.drop_first().push(h));
        lemma_header_block_push(hs.drop_first(), h);
        assert(header_block_bytes(hs.push(h)) =~= header_block_bytes(hs) + header_line_bytes(h));
    }
}

/// Appends the UTF-8 bytes of `s` to `out`.
fn push_str_bytes(out: &mut Vec<u8>, s: &str)
    ensures
        final(out)@ == old(out)@ + encode_utf8(s@),
{
    let bs = s.as_bytes();
    out.extend_from_slice(bs);
    proof {
        assert(final(out)@ =~= old(out)@ + encode_utf8(s@));
    }
}

impl HttpResponse {
    /// Builds a response; `Content-Type` and `Content-Length` are always its
    /// first two headers, further ones may be added before serialization.
    pub fn new(status_line: String, content_type: String, body: Vec<u8>) -> (r: HttpResponse)
        ensures
            r@ == response_new_spec(status_line@, content_type@, body@),
    {
        let ghost ctv = content_type@;
        let mut headers = HttpHeaders::new();
        headers.add(String::from_str("Content-Type"), content_type);
        headers.add(String::from_str("Content-Length"), dec_str(body.len()));
        let r = HttpResponse { status_line, headers, body };
        proof {
            assert(r.headers@ =~= initial_headers(ctv, r.body@.len()));
            assert(r@ =~~= response_new_spec(r.status_line@, ctv, r.body@));
        }
        r
    }

    /// The complete wire form of this response.
    #[verifier::loop_isolation(false)]
    pub fn serialize(&self) -> (r: Vec<u8>)
        ensures
            r@ == wire_bytes(self@),
    {
        let mut out: Vec<u8> = Vec::new();
        push_str_bytes(&mut out, self.status_line.as_str());
        out.push(13);
        out.push(10);
        let ghost head = encode_utf8(self.status_line@) + seq![13u8, 10u8];
        proof {
            assert(out@ =~= head);
            assert(self.headers@.take(0) =~= Seq::<(Seq<char>, Seq<char>)>::empty());
        }
        let hs = self.headers.iter();
        let m = hs.len();
        let mut i: usize = 0;
        while i < m
            invariant
                i <= m,
                out@ == head + header_block_bytes(self.headers@.take(i as int)),
            decreases m - i,
        {
            push_str_bytes(&mut out, hs[i].name.as_str());
            out.push(58);
            out.push(32);
            push_str_bytes(&mut out, hs[i].value.as_str());
            out.push(13);
            out.push(10);
            proof {
                lemma_header_block_push(self.headers@.take(i as int), self.headers@[i as int]);
                assert(self.headers@.take(i + 1) =~= self.headers@.take(i as int).push(
                    self.headers@[i as int],
                ));
                assert(out@ =~= head + header_block_bytes(self.headers@.take(i + 1)));
            }
            i += 1;
        }
        proof {
            assert(self.headers@.take(m as int) =~= self.headers@);
        }
        out.push(13);
        out.push(10);
        out.extend_from_slice(self.body.as_slice());
        proof {
            assert(out@ =~= wire_bytes(self@));
        }
        out
    }
}

/// Building a response from a body round-trips: its `Content-Length` header
/// is found by lookup, denotes exactly the body's byte length, and the wire
/// form carries the body verbatim after the blank line, so a compliant
/// decoder re-extracts it unchanged.
pub proof fn lemma_response_round_trip(status: Seq<char>, content_type: Seq<char>, body: Seq<u8>)
    ensures
        ({
            let v = response_new_spec(status, content_type, body);
            &&& get_spec(v.headers, "Content-Length"@) == Some(dec_digits(body.len()))
            &&& is_dec_digits(dec_digits(body.len()))
            &&& dec_val(dec_digits(body.len())) == body.len()
            &&& wire_bytes(v) == (encode_utf8(status) + seq![13u8, 10u8] + header_block_bytes(
                v.headers,
            ) + seq![13u8, 10u8]) + body
        }),
{
    let v = response_new_spec(status, content_type, body);
    let hs = v.headers;
    assert(hs.last() == ("Content-Length"@, dec_digits(body.len())));
    assert(chars_ieq("Content-Length"@, "Content-Length"@));
    assert(get_spec(hs, "Content-Length"@) == Some(dec_digits(body.len())));
    lemma_dec_digits_val(body.len());
    assert(wire_bytes(v) =~= (encode_utf8(status) + seq![13u8, 10u8] + header_block_bytes(hs)
        + seq![13u8, 10u8]) + body);
}

} // verus!
