//! The response model: a status, headers, and an optional body,
//! serialized into wire text and bytes. Whenever the body is set or
//! replaced, the `Content-Length` header is recomputed as the
//! character count of the new body, so the two never disagree.

use vstd::prelude::*;

use crate::request::{blank_line, body_of};
use crate::status::HttpStatus;
use crate::string_map::{StringMap, entries_insert, entries_map, entries_unique,
    lemma_entries_insert_map};
use crate::text::{crlf_free, decimal_of, find_seq, lemma_find_seq, matches_at};

verus! {

/// The mathematical value of a response: its status, its header pairs
/// in insertion order, and its body.
pub struct ResponseView {
    pub status: HttpStatus,
    pub headers: Seq<(Seq<char>, Seq<char>)>,
    pub body: Option<Seq<char>>,
}

/// The key under which a body's length is recorded.
pub open spec fn content_length_key() -> Seq<char> {
    "Content-Length"@
}

/// One `key: value` header line.
pub open spec fn header_line(e: (Seq<char>, Seq<char>)) -> Seq<char> {
    e.0 + ": "@ + e.1 + "\r\n"@
}

/// The header section of the wire text: one line per pair, in order.
pub open spec fn render_headers(hs: Seq<(Seq<char>, Seq<char>)>) -> Seq<char>
    decreases hs.len(),
{
    if hs.len() == 0 {
        Seq::empty()
    } else {
        render_headers(hs.drop_last()) + header_line(hs.last())
    }
}

/// The full wire text of a response: the status line, the header
/// lines, a blank line, and the body (empty if none).
pub open spec fn serialize_view(r: ResponseView) -> Seq<char> {
    "HTTP/1.1 "@ + r.status.text_spec() + "\r\n"@ + render_headers(r.headers) + "\r\n"@ + (match r
        .body {
        Some(b) => b,
        None => Seq::<char>::empty(),
    })
}

/// The plain-text response a string converts to: default status, the
/// text as body, and its character count as `Content-Length`.
pub open spec fn text_response(b: Seq<char>) -> ResponseView {
    ResponseView {
        status: HttpStatus::OK,
        headers: seq![(content_length_key(), decimal_of(b.len()))],
        body: Some(b),
    }
}

/// The producible-response capability: anything a handler may return
/// can be converted into a concrete response.
pub trait Response {
    /// The response this value converts to.
    spec fn response_view(&self) -> ResponseView;

    /// Converts this value into a concrete response.
    fn to_response(&self) -> (r: HttpResponse)
        ensures
            r@ == self.response_view(),
    ;
}

/// A response under construction: everything that will be sent back
/// to the client.
#[derive(Debug)]
pub struct HttpResponse {
    pub headers: StringMap,
    pub status: HttpStatus,
    pub body: Option<String>,
}

impl View for HttpResponse {
    type V = ResponseView;

    open spec fn view(&self) -> ResponseView {
        ResponseView {
            status: self.status,
            headers: self.headers.entries_view(),
            body: self.body.deep_view(),
        }
    }
}

impl HttpResponse {
    /// Well-formed: no header key occurs twice.
    pub open spec fn wf(&self) -> bool {
        self.headers.wf()
    }

    /// An empty response: no headers, default status, no body.
    pub fn new() -> (r: Self)
        ensures
            r.wf(),
            r@.status == HttpStatus::OK,
            r@.headers == Seq::<(Seq<char>, Seq<char>)>::empty(),
            r@.body is None,
    {
        HttpResponse { headers: StringMap::new(), status: HttpStatus::OK, body: None }
    }

    /// A response with the given body and status; `Content-Length` is
    /// the body's character count.
    pub fn new_body(body: String, status: HttpStatus) -> (r: Self)
        ensures
            r.wf(),
            r@.status == status,
            r@.headers == seq![(content_length_key(), decimal_of(body@.len()))],
            r@.body == Some(body@),
    {
        let mut headers = StringMap::new();
        let len = body.as_str().unicode_len();
        headers.insert(String::from_str("Content-Length"), crate::text::decimal_string(len));
        proof {
            assert(headers.entries_view() =~~= seq![
                (content_length_key(), decimal_of(body@.len())),
            ]);
        }
        HttpResponse { headers, status, body: Some(body) }
    }

    /// Adds a header, overwriting any earlier header with the same
    /// key; status and body are unchanged.
    pub fn insert_header(self, key: &str, value: &str) -> (r: Self)
        requires
            self.wf(),
        ensures
            r.wf(),
            r@.status == self@.status,
            r@.body == self@.body,
            r@.headers == entries_insert(self@.headers, key@, value@),
            entries_map(r@.headers) == entries_map(self@.headers).insert(key@, value@),
    {
        proof {
            lemma_entries_insert_map(self@.headers, key@, value@);
        }
        let HttpResponse { mut headers, status, body } = self;
        headers.insert(String::from_str(key), String::from_str(value));
        HttpResponse { headers, status, body }
    }

    /// Replaces the body and recomputes `Content-Length` as its
    /// character count; status and other headers are unchanged.
    pub fn set_body(self, body: &str) -> (r: Self)
        requires
            self.wf(),
        ensures
            r.wf(),
            r@.status == self@.status,
            r@.body == Some(body@),
            r@.headers == entries_insert(
                self@.headers,
                content_length_key(),
                decimal_of(body@.len()),
            ),
            entries_map(r@.headers) == entries_map(self@.headers).insert(
                content_length_key(),
                decimal_of(body@.len()),
            ),
    {
        proof {
            lemma_entries_insert_map(self@.headers, content_length_key(), decimal_of(body@.len()));
        }
        let HttpResponse { mut headers, status, body: _ } = self;
        let len = body.unicode_len();
        headers.insert(String::from_str("Content-Length"), crate::text::decimal_string(len));
        let owned = String::from_str(body);
        HttpResponse { headers, status, body: Some(owned) }
    }

    /// Replaces the status; headers and body are unchanged.
    pub fn set_status(self, status: HttpStatus) -> (r: Self)
        ensures
            r.wf() == self.wf(),
            r@.status == status,
            r@.headers == self@.headers,
            r@.body == self@.body,
    {
        let HttpResponse { headers, status: _, body } = self;
        HttpResponse { headers, status, body }
    }

    /// Serializes the response to its wire text.
    pub fn into_string(self) -> (r: String)
        ensures
            r@ == serialize_view(self@),
    {
        let mut out = String::from_str("HTTP/1.1 ");
        let status_text = self.status.render();
        out.append(status_text.as_str());
        out.append("\r\n");
        let ghost hs = self.headers.entries_view();
        let n = self.headers.num_entries();
        let mut i: usize = 0;
        while i < n
            invariant
                n == hs.len(),
                hs == self.headers.entries_view(),
                i <= n,
                out@ == "HTTP/1.1 "@ + self.status.text_spec() + "\r\n"@ + render_headers(
                    hs.take(i as int),
                ),
            decreases n - i,
        {
            let (k, v) = self.headers.entry_at(i);
            out.append(k.as_str());
            out.append(": ");
            out.append(v.as_str());
            out.append("\r\n");
            i = i + 1;
            proof {
                assert(hs.take(i as int).drop_last() =~= hs.take(i - 1));
                assert(hs.take(i as int).last() == hs[i - 1]);
            }
        }
        proof {
            assert(hs.take(n as int) =~= hs);
        }
        out.append("\r\n");
        match &self.body {
            Some(b) => {
                out.append(b.as_str());
            },
            None => {
                proof {
                    assert(out@ =~= out@ + Seq::<char>::empty());
                }
            },
        }
        out
    }

    /// Serializes the response to wire bytes: the UTF-8 encoding of
    /// its wire text.
    pub fn into_bytes(self) -> (r: Vec<u8>)
        ensures
            r@ == vstd::utf8::encode_utf8(serialize_view(self@)),
    {
        let s = self.into_string();
        s.as_str().as_bytes_vec()
    }

    /// A copy with the same value as the original.
    pub fn duplicate(&self) -> (r: Self)
        ensures
            r@ == self@,
            r.wf() == self.wf(),
    {
        let body = match &self.body {
            Some(b) => Some(b.clone()),
            None => None,
        };
        let r = HttpResponse { headers: self.headers.duplicate(), status: self.status, body };
        assert(r@.body == self@.body);
        r
    }
}

impl Default for HttpResponse {
    /// A fresh response: no headers, status `OK`, no body.
    fn default() -> (r: Self)
        ensures
            r.wf(),
            r@.status == HttpStatus::OK,
            r@.headers == Seq::<(Seq<char>, Seq<char>)>::empty(),
            r@.body is None,
    {
        HttpResponse::new()
    }
}

impl Response for HttpResponse {
    /// A concrete response converts to itself.
    open spec fn response_view(&self) -> ResponseView {
        self@
    }

    fn to_response(&self) -> (r: HttpResponse) {
        self.duplicate()
    }
}

impl Response for String {
    /// A string converts to the plain-text response holding it.
    open spec fn response_view(&self) -> ResponseView {
        text_response(self@)
    }

    fn to_response(&self) -> (r: HttpResponse) {
        let r = HttpResponse::new().set_body(self.as_str());
        proof {
            assert(r@.headers =~~= text_response(self@).headers);
        }
        r
    }
}

impl<'a> Response for &'a str {
    /// A string slice converts to the plain-text response holding it.
    open spec fn response_view(&self) -> ResponseView {
        text_response(self@)
    }

    fn to_response(&self) -> (r: HttpResponse) {
        let r = HttpResponse::new().set_body(self);
        proof {
            assert(r@.headers =~~= text_response(self@).headers);
        }
        r
    }
}

/// Every carriage return in `p` begins a line terminator: a line feed
/// follows it, and after the pair the text either ends or goes on with
/// something other than a carriage return.
spec fn terminator_only(p: Seq<char>) -> bool {
    forall|q: int|
        0 <= q < p.len() && #[trigger] p[q] == '\r' ==> q + 1 < p.len() && p[q + 1] == '\n' && (q
            + 2 == p.len() || p[q + 2] != '\r')
}

/// The head of the wire text through the header lines, when keys and
/// values hold no CR or LF: line terminators are its only carriage
/// returns, and it ends with one.
proof fn lemma_header_block(a: Seq<char>, hs: Seq<(Seq<char>, Seq<char>)>)
    requires
        crlf_free(a),
        forall|i: int|
            0 <= i < hs.len() ==> crlf_free(#[trigger] hs[i].0) && crlf_free(hs[i].1),
    ensures
        ({
            let p = a + "\r\n"@ + render_headers(hs);
            &&& terminator_only(p)
            &&& p.len() == a.len() + 2 + render_headers(hs).len()
            &&& p[p.len() - 1] == '\n'
            &&& p[p.len() - 2] == '\r'
        }),
    decreases hs.len(),
{
    reveal_strlit("\r\n");
    reveal_strlit(": ");
    let crlf = "\r\n"@;
    assert(crlf.len() == 2 && crlf[0] == '\r' && crlf[1] == '\n');
    let p = a + crlf + render_headers(hs);
    if hs.len() == 0 {
        assert(render_headers(hs) =~= Seq::<char>::empty());
        assert(p =~= a + crlf);
        assert forall|q: int| 0 <= q < p.len() && #[trigger] p[q] == '\r' implies q + 1 < p.len()
            && p[q + 1] == '\n' && (q + 2 == p.len() || p[q + 2] != '\r') by {
            if q < a.len() {
                assert(p[q] == a[q]);
            } else {
                assert(q == a.len());
            }
        }
    } else {
        let hs0 = hs.drop_last();
        let e = hs.last();
        assert(forall|i: int| 0 <= i < hs0.len() ==> hs0[i] == hs[i]);
        lemma_header_block(a, hs0);
        let p0 = a + crlf + render_headers(hs0);
        let k = e.0;
        let v = e.1;
        let line = header_line(e);
        assert(line =~= k + ": "@ + v + crlf);
        assert(line.len() == k.len() + 2 + v.len() + 2);
        assert(p =~= p0 + line);
        assert(line[0] != '\r') by {
            if k.len() > 0 {
                assert(line[0] == k[0]);
            } else {
                assert(line[0] == ": "@[0]);
            }
        }
        assert forall|r: int| 0 <= r < line.len() && line[r] == '\r' implies r == line.len()
            - 2 by {
            if r < k.len() {
                assert(line[r] == k[r]);
            } else if r == k.len() {
                assert(line[r] == ": "@[0]);
            } else if r == k.len() + 1 {
                assert(line[r] == ": "@[1]);
            } else if r < k.len() + 2 + v.len() {
                assert(line[r] == v[r - k.len() - 2]);
            } else if r == line.len() - 1 {
                assert(line[r] == crlf[1]);
            }
        }
        assert(line[line.len() - 2] == crlf[0]);
        assert(line[line.len() - 1] == crlf[1]);
        assert forall|q: int| 0 <= q < p.len() && #[trigger] p[q] == '\r' implies q + 1 < p.len()
            && p[q + 1] == '\n' && (q + 2 == p.len() || p[q + 2] != '\r') by {
            if q < p0.len() {
                assert(p[q] == p0[q]);
                assert(q + 1 < p0.len() && p0[q + 1] == '\n');
                assert(p[q + 1] == p0[q + 1]);
                if q + 2 == p0.len() {
                    assert(p[q + 2] == line[0]);
                } else {
                    assert(p0[q + 2] != '\r');
                    assert(p[q + 2] == p0[q + 2]);
                }
            } else {
                let r = q - p0.len();
                assert(line[r] == '\r');
                assert(r == line.len() - 2);
                assert(p[q + 1] == line[line.len() - 1]);
            }
        }
        assert(p[p.len() - 1] == line[line.len() - 1]);
        assert(p[p.len() - 2] == line[line.len() - 2]);
    }
}

/// Law: the serialized text of a response gives its body back. What
/// follows the first blank-line separator — the same rule the request
/// parser uses to find a body — is exactly the body the response
/// holds, whenever no header key or value holds a carriage return or
/// line feed (an empty body, as on the parsing side, reads back as no
/// body).
pub proof fn lemma_serialized_body_recovery(r: ResponseView, b: Seq<char>)
    requires
        r.body == Some(b),
        forall|i: int|
            0 <= i < r.headers.len() ==> crlf_free(#[trigger] r.headers[i].0) && crlf_free(
                r.headers[i].1,
            ),
    ensures
        body_of(serialize_view(r)) == if b.len() == 0 {
            None::<Seq<char>>
        } else {
            Some(b)
        },
{
    reveal_strlit("HTTP/1.1 ");
    reveal_strlit("\r\n");
    let crlf = "\r\n"@;
    assert(crlf.len() == 2 && crlf[0] == '\r' && crlf[1] == '\n');
    let a = "HTTP/1.1 "@ + r.status.text_spec();
    assert(crlf_free(a)) by {
        crate::status::lemma_status_text_crlf_free(r.status);
        assert(crlf_free("HTTP/1.1 "@));
        assert forall|i: int| 0 <= i < a.len() implies a[i] != '\r' && a[i] != '\n' by {
            if i < "HTTP/1.1 "@.len() {
                assert(a[i] == "HTTP/1.1 "@[i]);
            } else {
                assert(a[i] == r.status.text_spec()[i - "HTTP/1.1 "@.len()]);
            }
        }
    }
    lemma_header_block(a, r.headers);
    let p = a + crlf + render_headers(r.headers);
    let full = serialize_view(r);
    assert(full =~= p + crlf + b);
    let i0 = p.len() - 2;
    assert(matches_at(full, blank_line(), i0)) by {
        assert(full.subrange(i0, i0 + 4) =~= blank_line());
    }
    assert forall|j: int| 0 <= j < i0 implies !matches_at(full, blank_line(), j) by {
        if matches_at(full, blank_line(), j) {
            assert(full.subrange(j, j + 4) == blank_line());
            assert(full[j] == full.subrange(j, j + 4)[0]);
            assert(full[j + 2] == full.subrange(j, j + 4)[2]);
            assert(full[j] == '\r' && full[j + 2] == '\r');
            assert(p[j] == '\r');
            assert(p[j + 2] == '\r');
            assert(false);
        }
    }
    lemma_find_seq(full, blank_line());
    match find_seq(full, blank_line()) {
        Some(i) => {
            assert(i == i0);
            assert(full.skip(i0 + 4) =~= b);
        },
        None => {
            assert(false);
        },
    }
}

/// Inserting a CRLF-free pair into a list of CRLF-free pairs keeps
/// every pair CRLF-free.
proof fn lemma_entries_insert_crlf_free(es: Seq<(Seq<char>, Seq<char>)>, k: Seq<char>, v: Seq<char>)
    requires
        forall|i: int| 0 <= i < es.len() ==> crlf_free(#[trigger] es[i].0) && crlf_free(es[i].1),
        crlf_free(k),
        crlf_free(v),
    ensures
        forall|i: int|
            0 <= i < entries_insert(es, k, v).len() ==> crlf_free(
                #[trigger] entries_insert(es, k, v)[i].0,
            ) && crlf_free(entries_insert(es, k, v)[i].1),
    decreases es.len(),
{
    if es.len() > 0 && es[0].0 != k {
        let tail = es.drop_first();
        assert(forall|i: int| 0 <= i < tail.len() ==> tail[i] == es[i + 1]);
        lemma_entries_insert_crlf_free(tail, k, v);
        assert(forall|i: int|
            1 <= i < entries_insert(es, k, v).len() ==> entries_insert(es, k, v)[i]
                == entries_insert(tail, k, v)[i - 1]);
    }
}

/// Law (round trip): setting a body and serializing gives the body
/// back, and records its length. In the serialized text, what follows
/// the first blank-line separator is exactly the body that was set —
/// an empty body, as on the parsing side, reads back as no body — and
/// the `Content-Length` header holds the decimal rendering of the
/// body's character count (characters, not bytes). This holds for any
/// body and any prior headers that are free of CR and LF.
pub proof fn lemma_set_body_round_trip(r: ResponseView, b: Seq<char>)
    requires
        entries_unique(r.headers),
        forall|i: int|
            0 <= i < r.headers.len() ==> crlf_free(#[trigger] r.headers[i].0) && crlf_free(
                r.headers[i].1,
            ),
    ensures
        ({
            let r2 = ResponseView {
                status: r.status,
                headers: entries_insert(r.headers, content_length_key(), decimal_of(b.len())),
                body: Some(b),
            };
            &&& body_of(serialize_view(r2)) == if b.len() == 0 {
                None::<Seq<char>>
            } else {
                Some(b)
            }
            &&& entries_map(r2.headers).contains_key(content_length_key())
            &&& entries_map(r2.headers)[content_length_key()] == decimal_of(b.len())
        }),
{
    reveal_strlit("Content-Length");
    let r2 = ResponseView {
        status: r.status,
        headers: entries_insert(r.headers, content_length_key(), decimal_of(b.len())),
        body: Some(b),
    };
    assert(crlf_free(content_length_key()));
    crate::text::lemma_decimal_crlf_free(b.len());
    lemma_entries_insert_crlf_free(r.headers, content_length_key(), decimal_of(b.len()));
    lemma_entries_insert_map(r.headers, content_length_key(), decimal_of(b.len()));
    lemma_serialized_body_recovery(r2, b);
}

/// Law: the serialized text of a response ends with its body, whatever
/// the headers hold.
pub proof fn lemma_body_is_suffix(r: ResponseView, b: Seq<char>)
    requires
        r.body == Some(b),
    ensures
        serialize_view(r).len() >= b.len(),
        serialize_view(r).skip(serialize_view(r).len() - b.len()) == b,
{
    let out = serialize_view(r);
    let prefix = "HTTP/1.1 "@ + r.status.text_spec() + "\r\n"@ + render_headers(r.headers)
        + "\r\n"@;
    assert(out =~= prefix + b);
    assert(out.skip(out.len() - b.len()) =~= b);
}

} // verus!
