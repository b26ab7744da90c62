//! Responses: a status line, a header map and exactly one body, text or
//! binary, encoded with a `Content-Length` taken from the body itself.

use vstd::prelude::*;
use vstd::utf8::encode_utf8;
use crate::headers::{HeaderSeq, Headers};
use crate::httprequest::{HttpVersion, version_text};
use crate::text::{chars_eq, chars_of, copy_range, extend, string_of};

verus! {

/// The status text of a status code; an unknown code reads "Not Found".
pub open spec fn status_text_of(code: Seq<char>) -> Seq<char> {
    if code == "200"@ {
        "OK"@
    } else if code == "404"@ {
        "Not Found"@
    } else if code == "500"@ {
        "Internal Server Error"@
    } else {
        "Not Found"@
    }
}

/// The header map that a text response gets when none is given.
pub open spec fn default_headers() -> HeaderSeq {
    seq![("Content-Type"@, "text/html"@)]
}

/// The digit character of `d`.
pub open spec fn digit_char(d: nat) -> char {
    seq!['0', '1', '2', '3', '4', '5', '6', '7', '8', '9'][d as int]
}

/// `n` written in decimal, without leading zeros.
pub open spec fn decimal(n: nat) -> Seq<char>
    decreases n,
{
    if n < 10 {
        seq![digit_char(n)]
    } else {
        decimal(n / 10) + seq![digit_char(n % 10)]
    }
}

/// A character code with ASCII upper case folded to lower case.
pub open spec fn fold_case(u: u32) -> u32 {
    if 65 <= u <= 90 {
        (u + 32) as u32
    } else {
        u
    }
}

/// Whether a header name is `Content-Length`, in any ASCII case.
pub open spec fn is_length_name(k: Seq<char>) -> bool {
    k.len() == "content-length"@.len() && forall|i: int|
        0 <= i < k.len() ==> fold_case(k[i] as u32) == "content-length"@[i] as u32
}

/// Each header as `name: value` and a line break, in order; with
/// `skip_length`, an entry named `Content-Length` is left out.
pub open spec fn rendered_lines(h: HeaderSeq, skip_length: bool) -> Seq<char>
    decreases h.len(),
{
    if h.len() == 0 {
        Seq::empty()
    } else if skip_length && is_length_name(h.last().0) {
        rendered_lines(h.drop_last(), skip_length)
    } else {
        rendered_lines(h.drop_last(), skip_length) + h.last().0 + ": "@ + h.last().1 + "\r\n"@
    }
}

/// The header lines written on the wire: every entry but one named
/// `Content-Length`, the length being computed from the body.
pub open spec fn header_lines(h: HeaderSeq) -> Seq<char> {
    rendered_lines(h, true)
}

/// Every header entry as a line, `Content-Length` included.
pub open spec fn all_header_lines(h: Option<HeaderSeq>) -> Seq<char> {
    match h {
        Some(h) => rendered_lines(h, false),
        None => Seq::empty(),
    }
}

fn is_length_header(k: &[char]) -> (r: bool)
    ensures
        r == is_length_name(k@),
{
    let name = chars_of("content-length");
    if k.len() != name.len() {
        return false;
    }
    let mut i: usize = 0;
    while i < k.len()
        invariant
            i <= k@.len() == name@.len(),
            name@ == "content-length"@,
            forall|j: int| 0 <= j < i ==> fold_case(k@[j] as u32) == name@[j] as u32,
        decreases k@.len() - i,
    {
        let u = k[i] as u32;
        let u = if 65 <= u && u <= 90 { u + 32 } else { u };
        if u != name[i] as u32 {
            return false;
        }
        i = i + 1;
    }
    true
}

/// The header lines of an optional map.
pub open spec fn optional_header_lines(h: Option<HeaderSeq>) -> Seq<char> {
    match h {
        Some(h) => header_lines(h),
        None => Seq::empty(),
    }
}

/// Status line, headers, the length line for a body of `len` bytes, and the
/// blank line.
pub open spec fn head_text(
    v: HttpVersion,
    code: Seq<char>,
    text: Seq<char>,
    h: Option<HeaderSeq>,
    len: nat,
) -> Seq<char> {
    version_text(v) + " "@ + code + " "@ + text + "\r\n"@ + optional_header_lines(h)
        + "Content-Length: "@ + decimal(len) + "\r\n\r\n"@
}

/// What a response holds: version, status code, status text, headers, text
/// body, binary body.
pub type ResponseState = (
    HttpVersion,
    Seq<char>,
    Seq<char>,
    Option<HeaderSeq>,
    Option<Seq<char>>,
    Option<Seq<u8>>,
);

/// The text body, or the empty text.
pub open spec fn text_body(r: ResponseState) -> Seq<char> {
    match r.4 {
        Some(b) => b,
        None => Seq::empty(),
    }
}

/// A response with its text body, the body's length counted in UTF-8 bytes.
pub open spec fn response_text(r: ResponseState) -> Seq<char> {
    head_text(r.0, r.1, r.2, r.3, encode_utf8(text_body(r)).len()) + text_body(r)
}

/// The bytes sent for a response: the head and the binary body where there
/// is one, else the text response.
pub open spec fn response_bytes(r: ResponseState) -> Seq<u8> {
    match r.5 {
        Some(b) => encode_utf8(head_text(r.0, r.1, r.2, r.3, b.len())) + b,
        None => encode_utf8(response_text(r)),
    }
}

/// A response: version, status code and text, an optional header map, and a
/// text body or a binary body. The `Content-Length` is never stored; it is
/// computed from the body when the response is encoded.
#[derive(Debug, PartialEq, Eq)]
pub struct HttpResponse {
    version: HttpVersion,
    status_code: String,
    status_text: String,
    headers: Option<Headers>,
    body: Option<String>,
    binary_body: Option<Vec<u8>>,
}

impl View for HttpResponse {
    type V = ResponseState;

    closed spec fn view(&self) -> ResponseState {
        (
            self.version,
            self.status_code@,
            self.status_text@,
            match self.headers {
                Some(h) => Some(h@),
                None => None,
            },
            match self.body {
                Some(b) => Some(b@),
                None => None,
            },
            match self.binary_body {
                Some(b) => Some(b@),
                None => None,
            },
        )
    }
}

fn digit(d: usize) -> (r: char)
    requires
        d < 10,
    ensures
        r == digit_char(d as nat),
{
    if d == 0 { '0' } else if d == 1 { '1' } else if d == 2 { '2' } else if d == 3 { '3' }
    else if d == 4 { '4' } else if d == 5 { '5' } else if d == 6 { '6' } else if d == 7 { '7' }
    else if d == 8 { '8' } else { '9' }
}

/// `n` in decimal.
pub fn decimal_chars(n: usize) -> (r: Vec<char>)
    ensures
        r@ == decimal(n as nat),
    decreases n,
{
    if n < 10 {
        let mut r: Vec<char> = Vec::new();
        r.push(digit(n));
        assert(r@ =~= decimal(n as nat));
        r
    } else {
        let mut r = decimal_chars(n / 10);
        r.push(digit(n % 10));
        assert(r@ =~= decimal(n as nat));
        r
    }
}

fn status_text_for(code: &[char]) -> (r: String)
    ensures
        r@ == status_text_of(code@),
{
    if chars_eq(code, &chars_of("200")) {
        "OK".to_owned()
    } else if chars_eq(code, &chars_of("404")) {
        "Not Found".to_owned()
    } else if chars_eq(code, &chars_of("500")) {
        "Internal Server Error".to_owned()
    } else {
        "Not Found".to_owned()
    }
}

fn push_header_lines(out: &mut Vec<char>, h: &Headers, skip_length: bool)
    ensures
        final(out)@ == old(out)@ + rendered_lines(h@, skip_length),
{
    let entries = h.entries();
    let ghost hs = h@;
    let mut i: usize = 0;
    assert(hs.subrange(0, 0) =~= Seq::<(Seq<char>, Seq<char>)>::empty());
    while i < entries.len()
        invariant
            hs == h@,
            entries@.map_values(|e: (String, String)| (e.0@, e.1@)) == hs,
            i <= hs.len(),
            out@ == old(out)@ + rendered_lines(hs.subrange(0, i as int), skip_length),
        decreases hs.len() - i,
    {
        let e = &entries[i];
        assert(hs[i as int] == (e.0@, e.1@));
        let name = chars_of(e.0.as_str());
        if !skip_length || !is_length_header(&name) {
            extend(out, &name);
            extend(out, &chars_of(": "));
            extend(out, &chars_of(e.1.as_str()));
            extend(out, &chars_of("\r\n"));
        }
        assert(hs.subrange(0, i + 1).drop_last() =~= hs.subrange(0, i as int));
        i = i + 1;
    }
    assert(hs.subrange(0, hs.len() as int) =~= hs);
}

impl HttpResponse {
    /// Its header map has unique names, and it holds at most one body.
    pub closed spec fn wf(&self) -> bool {
        &&& (self.headers matches Some(h) ==> h.wf())
        &&& !(self.body is Some && self.binary_body is Some)
    }

    /// A text response. Without headers it gets `Content-Type: text/html`.
    pub fn new(status_code: &str, headers: Option<Headers>, body: Option<String>) -> (r:
        HttpResponse)
        requires
            headers matches Some(h) ==> h.wf(),
        ensures
            r.wf(),
            r@ == (
                HttpVersion::HTTP11,
                status_code@,
                status_text_of(status_code@),
                Some(
                    match headers {
                        Some(h) => h@,
                        None => default_headers(),
                    },
                ),
                match body {
                    Some(b) => Some(b@),
                    None => None::<Seq<char>>,
                },
                None::<Seq<u8>>,
            ),
    {
        let code = chars_of(status_code);
        let headers = match headers {
            Some(h) => h,
            None => {
                let mut h = Headers::new();
                h.insert("Content-Type".to_owned(), "text/html".to_owned());
                assert(h@ =~= default_headers());
                h
            },
        };
        let r = HttpResponse {
            version: HttpVersion::HTTP11,
            status_code: string_of(&code),
            status_text: status_text_for(&code),
            headers: Some(headers),
            body,
            binary_body: None,
        };
        r
    }

    /// A binary response; its headers are taken as given.
    pub fn new_binary(
        status_code: &str,
        headers: Option<Headers>,
        binary_body: Option<Vec<u8>>,
    ) -> (r: HttpResponse)
        requires
            headers matches Some(h) ==> h.wf(),
        ensures
            r.wf(),
            r@ == (
                HttpVersion::HTTP11,
                status_code@,
                status_text_of(status_code@),
                match headers {
                    Some(h) => Some(h@),
                    None => None::<HeaderSeq>,
                },
                None::<Seq<char>>,
                match binary_body {
                    Some(b) => Some(b@),
                    None => None::<Seq<u8>>,
                },
            ),
    {
        let code = chars_of(status_code);
        HttpResponse {
            version: HttpVersion::HTTP11,
            status_code: string_of(&code),
            status_text: status_text_for(&code),
            headers,
            body: None,
            binary_body,
        }
    }

    /// The version as written on the wire.
    pub fn version(&self) -> (r: String)
        ensures
            r@ == version_text(self@.0),
    {
        self.version.as_string()
    }

    /// The status code, as given.
    pub fn status_code(&self) -> (r: &str)
        ensures
            r@ == self@.1,
    {
        self.status_code.as_str()
    }

    /// The status text of the code.
    pub fn status_text(&self) -> (r: &str)
        ensures
            r@ == self@.2,
    {
        self.status_text.as_str()
    }

    /// Every header entry as a line ended by a line break, in order.
    pub fn headers(&self) -> (r: String)
        ensures
            r@ == all_header_lines(self@.3),
    {
        let mut out: Vec<char> = Vec::new();
        match &self.headers {
            Some(h) => push_header_lines(&mut out, h, false),
            None => {},
        }
        assert(out@ =~= all_header_lines(self@.3));
        string_of(&out)
    }

    /// The text body, or the empty text.
    pub fn body(&self) -> (r: &str)
        ensures
            r@ == text_body(self@),
    {
        match &self.body {
            Some(body) => body.as_str(),
            None => {
                proof {
                    reveal_strlit("");
                }
                ""
            },
        }
    }

    /// The binary body, if there is one.
    pub fn binary_body(&self) -> (r: Option<&[u8]>)
        ensures
            r matches Some(b) ==> self@.5 == Some(b@),
            r is None ==> self@.5 is None,
    {
        match &self.binary_body {
            Some(b) => Some(b.as_slice()),
            None => None,
        }
    }

    fn push_head(&self, out: &mut Vec<char>, len: usize)
        ensures
            final(out)@ == old(out)@ + head_text(self@.0, self@.1, self@.2, self@.3, len as nat),
    {
        let ghost start = out@;
        extend(out, &chars_of(self.version().as_str()));
        extend(out, &chars_of(" "));
        extend(out, &chars_of(self.status_code.as_str()));
        extend(out, &chars_of(" "));
        extend(out, &chars_of(self.status_text.as_str()));
        extend(out, &chars_of("\r\n"));
        match &self.headers {
            Some(h) => push_header_lines(out, h, true),
            None => {},
        }
        extend(out, &chars_of("Content-Length: "));
        extend(out, &decimal_chars(len));
        extend(out, &chars_of("\r\n\r\n"));
        assert(out@ =~= start + head_text(self@.0, self@.1, self@.2, self@.3, len as nat));
    }

    /// The head of a response whose body is `binary_body`.
    pub fn to_binary_response_string(&self, binary_body: &[u8]) -> (r: String)
        ensures
            r@ == head_text(self@.0, self@.1, self@.2, self@.3, binary_body@.len()),
    {
        let mut out: Vec<char> = Vec::new();
        self.push_head(&mut out, binary_body.len());
        assert(out@ =~= head_text(self@.0, self@.1, self@.2, self@.3, binary_body@.len()));
        string_of(&out)
    }

    /// The response with its text body; the binary body is not part of it.
    pub fn as_text(&self) -> (r: String)
        ensures
            r@ == response_text(self@),
    {
        let body = self.body();
        let mut out: Vec<char> = Vec::new();
        let n = body.as_bytes().len();
        self.push_head(&mut out, n);
        extend(&mut out, &chars_of(body));
        assert(out@ =~= response_text(self@));
        string_of(&out)
    }

    /// The bytes to send: the head and the binary body where there is one,
    /// else the text response.
    pub fn to_bytes(&self) -> (r: Vec<u8>)
        ensures
            r@ == response_bytes(self@),
    {
        match &self.binary_body {
            Some(b) => {
                let head = self.to_binary_response_string(b.as_slice());
                let hb = head.as_str().as_bytes();
                let mut out = copy_range(hb, 0, hb.len());
                extend(&mut out, b.as_slice());
                assert(out@ =~= response_bytes(self@));
                out
            },
            None => {
                let text = self.as_text();
                let tb = text.as_str().as_bytes();
                let out = copy_range(tb, 0, tb.len());
                assert(out@ =~= response_bytes(self@));
                out
            },
        }
    }
}

impl Default for HttpResponse {
    /// `HTTP/1.1 200 OK`, no headers, no body.
    fn default() -> (r: HttpResponse)
        ensures
            r.wf(),
            r@ == (
                HttpVersion::HTTP11,
                "200"@,
                "OK"@,
                None::<HeaderSeq>,
                None::<Seq<char>>,
                None::<Seq<u8>>,
            ),
    {
        HttpResponse {
            version: HttpVersion::HTTP11,
            status_code: "200".to_owned(),
            status_text: "OK".to_owned(),
            headers: None,
            body: None,
            binary_body: None,
        }
    }
}

} // verus!
