//! The response model: status codes, header list, body, and the serializer
//! that turns a response into the exact bytes written to a connection.

use vstd::prelude::*;
use vstd::string::*;
use vstd::utf8::encode_utf8;
use vstd::arithmetic::div_mod::lemma_fundamental_div_mod;

verus! {

/// An HTTP status code the server can emit.
#[derive(Debug, Clone, Copy, PartialEq, Eq, Structural)]
pub enum StatusCode {
    OK,
    NotFound,
}

/// The status-line text for each code.
pub open spec fn spec_status_line(s: StatusCode) -> Seq<char> {
    match s {
        StatusCode::OK => "200 OK"@,
        StatusCode::NotFound => "404 NOT FOUND"@,
    }
}

impl StatusCode {
    /// The textual status line, e.g. `200 OK`.
    pub fn status_line(&self) -> (r: &'static str)
        ensures
            r@ == spec_status_line(*self),
    {
        match self {
            StatusCode::OK => "200 OK",
            StatusCode::NotFound => "404 NOT FOUND",
        }
    }
}

impl From<usize> for StatusCode {
    /// Maps a numeric code to its variant; unknown codes map to `NotFound`.
    fn from(code: usize) -> (r: Self) {
        match code {
            200 => Self::OK,
            404 => Self::NotFound,
            _ => Self::NotFound,
        }
    }
}

impl vstd::std_specs::convert::FromSpecImpl<usize> for StatusCode {
    open spec fn obeys_from_spec() -> bool {
        true
    }

    open spec fn from_spec(code: usize) -> Self {
        if code == 200 {
            StatusCode::OK
        } else {
            StatusCode::NotFound
        }
    }
}

/// The body of a response: plain text (served as HTML) or a
/// pre-serialized JSON document.
#[derive(Debug, PartialEq)]
pub enum ResponseBody {
    Text(String),
    Json(String),
}

/// The mathematical value of a body: the same tag over character sequences.
pub enum BodyView {
    Text(Seq<char>),
    Json(Seq<char>),
}

impl View for ResponseBody {
    type V = BodyView;

    open spec fn view(&self) -> BodyView {
        match self {
            ResponseBody::Text(s) => BodyView::Text(s@),
            ResponseBody::Json(s) => BodyView::Json(s@),
        }
    }
}

/// The characters a body carries, whatever its tag.
pub open spec fn body_chars(b: BodyView) -> Seq<char> {
    match b {
        BodyView::Text(s) => s,
        BodyView::Json(s) => s,
    }
}

/// The bytes a body serializes to.
pub open spec fn body_bytes(b: BodyView) -> Seq<u8> {
    encode_utf8(body_chars(b))
}

impl Clone for ResponseBody {
    fn clone(&self) -> (r: Self)
        ensures
            r == *self,
    {
        match self {
            ResponseBody::Text(s) => ResponseBody::Text(s.clone()),
            ResponseBody::Json(s) => ResponseBody::Json(s.clone()),
        }
    }
}

impl From<String> for ResponseBody {
    /// A bare string becomes a text body.
    fn from(body: String) -> (r: Self) {
        Self::Text(body)
    }
}

impl vstd::std_specs::convert::FromSpecImpl<String> for ResponseBody {
    open spec fn obeys_from_spec() -> bool {
        true
    }

    open spec fn from_spec(body: String) -> Self {
        ResponseBody::Text(body)
    }
}

impl ResponseBody {
    /// The underlying string, whatever the tag.
    pub fn as_string(&self) -> (r: &String)
        ensures
            r@ == body_chars(self@),
    {
        match self {
            ResponseBody::Text(s) => s,
            ResponseBody::Json(s) => s,
        }
    }
}

impl From<ResponseBody> for String {
    /// Unwraps the body's string, whatever the tag.
    fn from(body: ResponseBody) -> (r: Self) {
        match body {
            ResponseBody::Text(text) => text,
            ResponseBody::Json(json) => json,
        }
    }
}

impl vstd::std_specs::convert::FromSpecImpl<ResponseBody> for String {
    open spec fn obeys_from_spec() -> bool {
        true
    }

    open spec fn from_spec(body: ResponseBody) -> Self {
        match body {
            ResponseBody::Text(text) => text,
            ResponseBody::Json(json) => json,
        }
    }
}

/// An HTTP response: status code, headers in the order they will be
/// written, and a body.
#[derive(Debug)]
pub struct Response {
    /// The status code of the response.
    pub status_code: StatusCode,
    /// Headers sent with the response, in serialization order.
    pub headers: Vec<(String, String)>,
    /// The body of the response.
    pub body: ResponseBody,
}

/// The mathematical value of a response.
pub struct ResponseView {
    pub status_code: StatusCode,
    pub headers: Seq<(Seq<char>, Seq<char>)>,
    pub body: BodyView,
}

impl View for Response {
    type V = ResponseView;

    open spec fn view(&self) -> ResponseView {
        ResponseView {
            status_code: self.status_code,
            headers: self.headers@.map_values(|p: (String, String)| (p.0@, p.1@)),
            body: self.body@,
        }
    }
}

impl Clone for Response {
    fn clone(&self) -> (r: Self)
        ensures
            r@ == self@,
    {
        let mut headers: Vec<(String, String)> = Vec::new();
        let mut i: usize = 0;
        while i < self.headers.len()
            invariant
                i <= self.headers@.len(),
                headers@ =~= self.headers@.subrange(0, i as int),
            decreases self.headers@.len() - i,
        {
            let pair = &self.headers[i];
            headers.push((pair.0.clone(), pair.1.clone()));
            i = i + 1;
        }
        proof {
            assert(headers@ =~= self.headers@);
        }
        Response { status_code: self.status_code, headers, body: self.body.clone() }
    }
}

impl Response {
    /// Creates a new response from its parts.
    pub fn new(status_code: StatusCode, headers: Vec<(String, String)>, body: ResponseBody) -> (r:
        Self)
        ensures
            r.status_code == status_code,
            r.headers == headers,
            r.body == body,
    {
        Self { status_code, headers, body }
    }

    /// An HTML response: text body with a `text/html` content type.
    pub fn html(content: String, status_code: StatusCode) -> (r: Self)
        ensures
            r@.status_code == status_code,
            r@.headers == seq![("Content-Type"@, "text/html"@)],
            r@.body == BodyView::Text(content@),
    {
        let mut headers: Vec<(String, String)> = Vec::new();
        headers.push((String::from_str("Content-Type"), String::from_str("text/html")));
        let r = Self { status_code, headers, body: ResponseBody::Text(content) };
        proof {
            assert(r@.headers =~~= seq![("Content-Type"@, "text/html"@)]);
        }
        r
    }

    /// A JSON response: an already-serialized document with an
    /// `application/json` content type and status `OK`.
    pub fn json(content: String) -> (r: Self)
        ensures
            r@.status_code == StatusCode::OK,
            r@.headers == seq![("Content-Type"@, "application/json"@)],
            r@.body == BodyView::Json(content@),
    {
        let mut headers: Vec<(String, String)> = Vec::new();
        headers.push((String::from_str("Content-Type"), String::from_str("application/json")));
        let r = Self { status_code: StatusCode::OK, headers, body: ResponseBody::Json(content) };
        proof {
            assert(r@.headers =~~= seq![("Content-Type"@, "application/json"@)]);
        }
        r
    }

    /// The response synthesized when no route matches and no "not found"
    /// route is registered: status 404, no headers, a fixed text body.
    pub fn default_not_found() -> (r: Self)
        ensures
            r@ == spec_default_not_found(),
    {
        let headers: Vec<(String, String)> = Vec::new();
        let r = Self {
            status_code: StatusCode::NotFound,
            headers,
            body: ResponseBody::Text(String::from_str("404 Not Found")),
        };
        proof {
            assert(r@.headers =~~= spec_default_not_found().headers);
        }
        r
    }
}

/// The synthesized fallback response: 404, no headers, fixed body.
pub open spec fn spec_default_not_found() -> ResponseView {
    ResponseView {
        status_code: StatusCode::NotFound,
        headers: Seq::empty(),
        body: BodyView::Text("404 Not Found"@),
    }
}

/// Decimal digits (ASCII) of `n`, most significant first.
pub open spec fn spec_digits(n: nat) -> Seq<u8>
    decreases n,
{
    if n < 10 {
        seq![(48 + n) as u8]
    } else {
        spec_digits(n / 10).push((48 + n % 10) as u8)
    }
}

/// The number a digit string denotes.
pub open spec fn spec_digits_value(ds: Seq<u8>) -> nat
    decreases ds.len(),
{
    if ds.len() == 0 {
        0
    } else {
        (10 * spec_digits_value(ds.drop_last()) + (ds.last() - 48)) as nat
    }
}

/// The digits emitted for `n` denote exactly `n`: what `Content-Length`
/// says is the number it was computed from.
pub proof fn lemma_digits_value(n: nat)
    ensures
        spec_digits_value(spec_digits(n)) == n,
    decreases n,
{
    if n < 10 {
        assert(spec_digits(n) =~= seq![(48 + n) as u8]);
        assert(spec_digits(n).drop_last() =~= Seq::<u8>::empty());
        assert((48 + n) as u8 == 48 + n) by {
            assert(48 + n <= 57);
        };
        assert(spec_digits_value(spec_digits(n)) == (10 * spec_digits_value(
            spec_digits(n).drop_last(),
        ) + (spec_digits(n).last() - 48)) as nat);
    } else {
        lemma_digits_value(n / 10);
        lemma_fundamental_div_mod(n as int, 10);
        assert(spec_digits(n).drop_last() =~= spec_digits(n / 10));
        assert(spec_digits(n).last() == (48 + n % 10) as u8);
        assert((48 + n % 10) as u8 == 48 + n % 10) by {
            assert(n % 10 < 10);
        };
        assert(spec_digits_value(spec_digits(n)) == (10 * spec_digits_value(
            spec_digits(n).drop_last(),
        ) + (spec_digits(n).last() - 48)) as nat);
    }
}

/// Renders `n` in decimal ASCII, most significant digit first.
pub fn decimal_digits(n: usize) -> (r: Vec<u8>)
    ensures
        r@ == spec_digits(n as nat),
    decreases n,
{
    if n < 10 {
        let mut v: Vec<u8> = Vec::new();
        v.push(48 + n as u8);
        proof {
            assert(v@ =~= spec_digits(n as nat));
        }
        v
    } else {
        let mut v = decimal_digits(n / 10);
        v.push(48 + (n % 10) as u8);
        v
    }
}

/// The bytes of one serialized header line: `Name: Value` and CRLF.
pub open spec fn spec_header_line(h: (Seq<char>, Seq<char>)) -> Seq<u8> {
    encode_utf8(h.0) + encode_utf8(": "@) + encode_utf8(h.1) + encode_utf8("\r\n"@)
}

/// The bytes of a header list, in order.
pub open spec fn spec_headers(hs: Seq<(Seq<char>, Seq<char>)>) -> Seq<u8>
    decreases hs.len(),
{
    if hs.len() == 0 {
        Seq::empty()
    } else {
        spec_header_line(hs[0]) + spec_headers(hs.drop_first())
    }
}

proof fn lemma_spec_headers_push(hs: Seq<(Seq<char>, Seq<char>)>, h: (Seq<char>, Seq<char>))
    ensures
        spec_headers(hs.push(h)) == spec_headers(hs) + spec_header_line(h),
    decreases hs.len(),
{
    if hs.len() == 0 {
        assert(hs.push(h).drop_first() =~= hs);
        assert(hs.push(h)[0] == h);
        assert(spec_headers(hs.push(h)) == spec_header_line(h) + spec_headers(hs));
        assert(spec_header_line(h) + spec_headers(hs) =~= spec_headers(hs) + spec_header_line(h));
    } else {
        assert(hs.push(h)[0] == hs[0]);
        assert(hs.push(h).drop_first() =~= hs.drop_first().push(h));
        lemma_spec_headers_push(hs.drop_first(), h);
        assert(spec_headers(hs.push(h)) == spec_header_line(hs[0]) + (spec_headers(hs.drop_first())
            + spec_header_line(h)));
        assert(spec_header_line(hs[0]) + (spec_headers(hs.drop_first()) + spec_header_line(h)) =~= (
        spec_header_line(hs[0]) + spec_headers(hs.drop_first())) + spec_header_line(h));
    }
}

/// The complete serialized response, per the wire format: status line,
/// `Content-Length` computed from the body's byte length, the headers in
/// order, a blank line, then the raw body bytes.
pub open spec fn spec_serialize(r: ResponseView) -> Seq<u8> {
    encode_utf8("HTTP/1.1 "@) + encode_utf8(spec_status_line(r.status_code)) + encode_utf8("\r\n"@)
        + encode_utf8("Content-Length: "@) + spec_digits(body_bytes(r.body).len()) + encode_utf8(
        "\r\n"@,
    ) + spec_headers(r.headers) + encode_utf8("\r\n"@) + body_bytes(r.body)
}

/// Appends the UTF-8 bytes of `s` to `out`.
fn append_str(out: &mut Vec<u8>, s: &str)
    ensures
        final(out)@ == old(out)@ + s.spec_bytes(),
{
    let mut bytes = s.as_bytes_vec();
    out.append(&mut bytes);
}

impl Response {
    /// Serializes the response into the exact bytes to write to the
    /// connection.
    pub fn serialize(&self) -> (r: Vec<u8>)
        ensures
            r@ == spec_serialize(self@),
    {
        let mut out: Vec<u8> = Vec::new();
        append_str(&mut out, "HTTP/1.1 ");
        append_str(&mut out, self.status_code.status_line());
        append_str(&mut out, "\r\n");
        append_str(&mut out, "Content-Length: ");
        let body = self.body.as_string();
        let mut body_out = body.as_str().as_bytes_vec();
        let mut digits = decimal_digits(body_out.len());
        out.append(&mut digits);
        append_str(&mut out, "\r\n");
        let ghost pre_headers = out@;
        let mut i: usize = 0;
        while i < self.headers.len()
            invariant
                i <= self.headers@.len(),
                out@ == pre_headers + spec_headers(self@.headers.take(i as int)),
            decreases self.headers@.len() - i,
        {
            let pair = &self.headers[i];
            append_str(&mut out, pair.0.as_str());
            append_str(&mut out, ": ");
            append_str(&mut out, pair.1.as_str());
            append_str(&mut out, "\r\n");
            proof {
                assert(self@.headers.take(i + 1) =~= self@.headers.take(i as int).push(
                    self@.headers[i as int],
                ));
                lemma_spec_headers_push(self@.headers.take(i as int), self@.headers[i as int]);
                assert(out@ =~= pre_headers + spec_headers(self@.headers.take(i + 1)));
            }
            i = i + 1;
        }
        proof {
            assert(self@.headers.take(self.headers@.len() as int) =~= self@.headers);
            assert(out@ == encode_utf8("HTTP/1.1 "@) + encode_utf8(
                spec_status_line(self@.status_code),
            ) + encode_utf8("\r\n"@) + encode_utf8("Content-Length: "@) + spec_digits(
                body_bytes(self@.body).len(),
            ) + encode_utf8("\r\n"@) + spec_headers(self@.headers));
        }
        append_str(&mut out, "\r\n");
        out.append(&mut body_out);
        proof {
            assert(out@ == spec_serialize(self@));
        }
        out
    }
}

} // verus!
