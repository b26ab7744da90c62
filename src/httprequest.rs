//! Requests: the method, resource and version of the request line, the
//! header map, and a text body, parsed from the text of a request.

use vstd::prelude::*;
use crate::headers::{HeaderSeq, Headers, with_entry};
use crate::text::{
    chars_eq, chars_of, copy_range, extend, find_char, find_from, split_words, string_of, strip_cr,
    trim, trim_chars, words,
};

verus! {

/// The method of a request; a method other than GET and POST is
/// `UNINITIALIZED`, as is the method of a malformed request line.
#[allow(non_camel_case_types)]
#[derive(Debug, PartialEq, Eq, Structural, Clone, Copy)]
pub enum HttpMethod {
    GET,
    POST,
    UNINITIALIZED,
}

/// The method that a request-line token names.
pub open spec fn method_of(t: Seq<char>) -> HttpMethod {
    if t == "GET"@ {
        HttpMethod::GET
    } else if t == "POST"@ {
        HttpMethod::POST
    } else {
        HttpMethod::UNINITIALIZED
    }
}

fn method_from_chars(t: &[char]) -> (r: HttpMethod)
    ensures
        r == method_of(t@),
{
    if chars_eq(t, &chars_of("GET")) {
        HttpMethod::GET
    } else if chars_eq(t, &chars_of("POST")) {
        HttpMethod::POST
    } else {
        HttpMethod::UNINITIALIZED
    }
}

impl<'a> From<&'a str> for HttpMethod {
    fn from(method: &'a str) -> (r: HttpMethod) {
        method_from_chars(&chars_of(method))
    }
}

impl<'a> vstd::std_specs::convert::FromSpecImpl<&'a str> for HttpMethod {
    open spec fn obeys_from_spec() -> bool {
        true
    }

    open spec fn from_spec(v: &'a str) -> HttpMethod {
        method_of(v@)
    }
}

/// The protocol version; anything but HTTP/1.0 and HTTP/1.1 is
/// `UNINITIALIZED`.
#[allow(non_camel_case_types)]
#[derive(Debug, PartialEq, Eq, Structural, Clone, Copy)]
pub enum HttpVersion {
    HTTP10,
    HTTP11,
    UNINITIALIZED,
}

/// The version that a request-line token names.
pub open spec fn version_of(t: Seq<char>) -> HttpVersion {
    if t == "HTTP/1.0"@ {
        HttpVersion::HTTP10
    } else if t == "HTTP/1.1"@ {
        HttpVersion::HTTP11
    } else {
        HttpVersion::UNINITIALIZED
    }
}

/// How a version is written on the wire.
pub open spec fn version_text(v: HttpVersion) -> Seq<char> {
    match v {
        HttpVersion::HTTP10 => "HTTP/1.0"@,
        HttpVersion::HTTP11 => "HTTP/1.1"@,
        HttpVersion::UNINITIALIZED => "UNINITIALIZED"@,
    }
}

fn version_from_chars(t: &[char]) -> (r: HttpVersion)
    ensures
        r == version_of(t@),
{
    if chars_eq(t, &chars_of("HTTP/1.0")) {
        HttpVersion::HTTP10
    } else if chars_eq(t, &chars_of("HTTP/1.1")) {
        HttpVersion::HTTP11
    } else {
        HttpVersion::UNINITIALIZED
    }
}

impl<'a> From<&'a str> for HttpVersion {
    fn from(version: &'a str) -> (r: HttpVersion) {
        version_from_chars(&chars_of(version))
    }
}

impl<'a> vstd::std_specs::convert::FromSpecImpl<&'a str> for HttpVersion {
    open spec fn obeys_from_spec() -> bool {
        true
    }

    open spec fn from_spec(v: &'a str) -> HttpVersion {
        version_of(v@)
    }
}

impl HttpVersion {
    /// The version as written on the wire.
    pub fn as_string(&self) -> (r: String)
        ensures
            r@ == version_text(*self),
    {
        match self {
            HttpVersion::HTTP10 => "HTTP/1.0".to_owned(),
            HttpVersion::HTTP11 => "HTTP/1.1".to_owned(),
            HttpVersion::UNINITIALIZED => "UNINITIALIZED".to_owned(),
        }
    }
}

/// The resource a request names: a path, or none for a malformed request
/// line.
#[allow(non_camel_case_types)]
#[derive(Debug, PartialEq, Eq)]
pub enum HttpResource {
    PATH(String),
    UNINITIALIZED,
}

impl View for HttpResource {
    type V = Option<Seq<char>>;

    open spec fn view(&self) -> Option<Seq<char>> {
        match self {
            HttpResource::PATH(p) => Some(p@),
            HttpResource::UNINITIALIZED => None,
        }
    }
}

/// What a request holds: method, resource path, version, headers and body.
pub type RequestState = (HttpMethod, Option<Seq<char>>, HttpVersion, HeaderSeq, Seq<char>);

/// The state before any line is read.
pub open spec fn initial_state() -> RequestState {
    (
        HttpMethod::UNINITIALIZED,
        None,
        HttpVersion::UNINITIALIZED,
        Seq::empty(),
        Seq::empty(),
    )
}

/// A request line: with exactly three words, the method, path and version
/// they name; otherwise all three uninitialised.
pub open spec fn request_line(l: Seq<char>) -> (HttpMethod, Option<Seq<char>>, HttpVersion) {
    let w = words(l);
    if w.len() == 3 {
        (method_of(w[0]), Some(w[1]), version_of(w[2]))
    } else {
        (HttpMethod::UNINITIALIZED, None, HttpVersion::UNINITIALIZED)
    }
}

/// Whether a line holds a colon.
pub open spec fn has_colon(l: Seq<char>) -> bool {
    find_from(l, ':', 0) < l.len()
}

/// The name of a header line: the text before its first colon, trimmed.
pub open spec fn header_name(l: Seq<char>) -> Seq<char> {
    trim(l.subrange(0, find_from(l, ':', 0)))
}

/// The value of a header line: the text after its first colon, trimmed.
pub open spec fn header_value(l: Seq<char>) -> Seq<char> {
    trim(l.subrange(find_from(l, ':', 0) + 1, l.len() as int))
}

/// The effect of line number `index`: empty lines are skipped; the first line
/// is the request line; a later line with a colon sets a header; any other
/// line is added to the body, after a newline if the body is not empty.
pub open spec fn step(st: RequestState, index: int, l: Seq<char>) -> RequestState {
    if l.len() == 0 {
        st
    } else if index == 0 {
        let (m, p, v) = request_line(l);
        (m, p, v, st.3, st.4)
    } else if has_colon(l) {
        (st.0, st.1, st.2, with_entry(st.3, header_name(l), header_value(l)), st.4)
    } else if st.4.len() == 0 {
        (st.0, st.1, st.2, st.3, l)
    } else {
        (st.0, st.1, st.2, st.3, st.4 + seq!['\n'] + l)
    }
}

/// The request that a sequence of lines describes.
pub open spec fn parse_lines(ls: Seq<Seq<char>>) -> RequestState
    decreases ls.len(),
{
    if ls.len() == 0 {
        initial_state()
    } else {
        step(parse_lines(ls.drop_last()), ls.len() - 1, ls.last())
    }
}

/// The head lines of a text, read from the line that began at `start` with
/// the scan at `i`: its lines up to the first empty one, and the index after
/// that empty line if there is one. A line ends at a newline, which it loses
/// together with one carriage return before it.
pub open spec fn head_scan_text(s: Seq<char>, start: int, i: int) -> (Seq<Seq<char>>, Option<int>)
    decreases s.len() - i,
{
    if i < 0 || i >= s.len() {
        (
            if 0 <= start < s.len() {
                seq![s.subrange(start, s.len() as int)]
            } else {
                Seq::empty()
            },
            None,
        )
    } else if s[i] == '\n' {
        let l = strip_cr(s.subrange(start, i), '\r');
        if l.len() == 0 {
            (Seq::empty(), Some(i + 1))
        } else {
            let (ls, t) = head_scan_text(s, i + 1, i + 1);
            (seq![l] + ls, t)
        }
    } else {
        head_scan_text(s, start, i + 1)
    }
}

/// `r` with the lines `done` put in front.
pub open spec fn after_head(done: Seq<Seq<char>>, r: (Seq<Seq<char>>, Option<int>)) -> (Seq<Seq<char>>, Option<int>) {
    (done + r.0, r.1)
}

/// The body: the lines gathered from the head, then what follows the empty
/// line, after a newline where both are present.
pub open spec fn append_body(b: Seq<char>, tail: Seq<char>) -> Seq<char> {
    if tail.len() == 0 {
        b
    } else if b.len() == 0 {
        tail
    } else {
        b + seq!['\n'] + tail
    }
}

/// The request that a text describes: its head lines parsed one by one, and
/// everything after the first empty line taken as it stands into the body.
pub open spec fn parse_request(s: Seq<char>) -> RequestState {
    let (ls, t) = head_scan_text(s, 0, 0);
    let st = parse_lines(ls);
    let tail = match t {
        Some(k) => s.subrange(k, s.len() as int),
        None => Seq::empty(),
    };
    (st.0, st.1, st.2, st.3, append_body(st.4, tail))
}

/// A decoded request. Malformed input is represented, not rejected.
#[derive(Debug, PartialEq, Eq)]
pub struct HttpRequest {
    pub method: HttpMethod,
    pub resource: HttpResource,
    pub version: HttpVersion,
    pub headers: Headers,
    pub body: String,
}

impl View for HttpRequest {
    type V = RequestState;

    open spec fn view(&self) -> RequestState {
        (self.method, self.resource@, self.version, self.headers@, self.body@)
    }
}

/// The method, resource and version named by a request line.
pub fn process_resource(resource: &[char]) -> (r: (HttpMethod, HttpResource, HttpVersion))
    ensures
        (r.0, r.1@, r.2) == request_line(resource@),
{
    let parts = split_words(resource);
    assert(parts@.len() == words(resource@).len());
    if parts.len() == 3 {
        assert(parts@[0]@ == words(resource@)[0]);
        assert(parts@[1]@ == words(resource@)[1]);
        assert(parts@[2]@ == words(resource@)[2]);
        (
            method_from_chars(&parts[0]),
            HttpResource::PATH(string_of(&parts[1])),
            version_from_chars(&parts[2]),
        )
    } else {
        (HttpMethod::UNINITIALIZED, HttpResource::UNINITIALIZED, HttpVersion::UNINITIALIZED)
    }
}

/// The name and value of a header line that holds a colon.
pub fn process_header(header: &[char]) -> (r: (String, String))
    requires
        has_colon(header@),
    ensures
        r.0@ == header_name(header@),
        r.1@ == header_value(header@),
{
    let n = header.len();
    let k = find_char(header, ':', 0);
    assert(k < n);
    let name = trim_chars(&copy_range(header, 0, k));
    let value = trim_chars(&copy_range(header, k + 1, n));
    (string_of(&name), string_of(&value))
}

impl HttpRequest {
    /// The path of the resource, or the empty text when there is none.
    pub fn resource_path(&self) -> (r: &str)
        ensures
            r@ == match self.resource@ {
                Some(p) => p,
                None => Seq::<char>::empty(),
            },
    {
        match &self.resource {
            HttpResource::PATH(path) => path.as_str(),
            HttpResource::UNINITIALIZED => {
                proof {
                    reveal_strlit("");
                }
                ""
            },
        }
    }

    /// Parses the text of a request: the head line by line up to the first
    /// empty line, then the rest as the body. A malformed request line leaves
    /// method, resource and version uninitialised; nothing is rejected.
    pub fn from(req: String) -> (r: HttpRequest)
        ensures
            r@ == parse_request(req@),
            r.headers.wf(),
    {
        let cs = chars_of(req.as_str());
        let n = cs.len();
        let mut r = LineState {
            method: HttpMethod::UNINITIALIZED,
            resource: HttpResource::UNINITIALIZED,
            version: HttpVersion::UNINITIALIZED,
            headers: Headers::new(),
            body: Vec::new(),
        };
        let ghost mut done: Seq<Seq<char>> = Seq::empty();
        let mut index: usize = 0;
        let mut start: usize = 0;
        let mut i: usize = 0;
        let mut found = false;
        let mut tail_start: usize = 0;
        assert(r.view() =~= parse_lines(done));
        assert(after_head(done, head_scan_text(cs@, 0, 0)) =~= head_scan_text(cs@, 0, 0));
        while i < n
            invariant
                n == cs@.len(),
                cs@ == req@,
                start <= i <= n,
                found ==> i == n && tail_start <= n && head_scan_text(cs@, 0, 0) == (
                    done,
                    Some(tail_start as int),
                ),
                !found ==> head_scan_text(cs@, 0, 0) == after_head(
                    done,
                    head_scan_text(cs@, start as int, i as int),
                ),
                index == done.len(),
                index <= i,
                r.headers.wf(),
                r.view() == parse_lines(done),
            decreases n - i,
        {
            if cs[i] == '\n' {
                let mut end = i;
                if end > start && cs[end - 1] == '\r' {
                    end = end - 1;
                }
                let line = copy_range(&cs, start, end);
                assert(line@ == strip_cr(cs@.subrange(start as int, i as int), '\r'));
                if line.len() == 0 {
                    assert(done + Seq::<Seq<char>>::empty() =~= done);
                    tail_start = i + 1;
                    found = true;
                    i = n;
                } else {
                    r.apply(index, line, Ghost(done));
                    proof {
                        let rest = head_scan_text(cs@, (i + 1) as int, (i + 1) as int);
                        assert(done + (seq![line@] + rest.0) =~= done.push(line@) + rest.0);
                        done = done.push(line@);
                    }
                    index = index + 1;
                    start = i + 1;
                    i = i + 1;
                }
            } else {
                i = i + 1;
            }
        }
        if !found && start < n {
            let line = copy_range(&cs, start, n);
            r.apply(index, line, Ghost(done));
            proof {
                done = done.push(line@);
            }
        }
        proof {
            if !found {
                assert(head_scan_text(cs@, 0, 0).0 =~= done);
            }
        }
        if found {
            let tail = copy_range(&cs, tail_start, n);
            if tail.len() > 0 {
                if r.body.len() == 0 {
                    r.body = tail;
                } else {
                    r.body.push('\n');
                    extend(&mut r.body, &tail);
                }
            }
        }
        assert(r.body@ =~= parse_request(req@).4);
        HttpRequest {
            method: r.method,
            resource: r.resource,
            version: r.version,
            headers: r.headers,
            body: string_of(&r.body),
        }
    }
}

/// A request under construction, its body still a character vector.
struct LineState {
    method: HttpMethod,
    resource: HttpResource,
    version: HttpVersion,
    headers: Headers,
    body: Vec<char>,
}

impl LineState {
    spec fn view(&self) -> RequestState {
        (self.method, self.resource@, self.version, self.headers@, self.body@)
    }

    /// Takes in line number `index`, which follows the lines `done`.
    fn apply(&mut self, index: usize, line: Vec<char>, Ghost(done): Ghost<Seq<Seq<char>>>)
        requires
            old(self).headers.wf(),
            old(self).view() == parse_lines(done),
            index == done.len(),
        ensures
            final(self).headers.wf(),
            final(self).view() == parse_lines(done.push(line@)),
    {
        let ghost st = parse_lines(done);
        if line.len() == 0 {
        } else if index == 0 {
            let (m, p, v) = process_resource(&line);
            self.method = m;
            self.resource = p;
            self.version = v;
        } else if find_char(&line, ':', 0) < line.len() {
            let (k, v) = process_header(&line);
            self.headers.insert(k, v);
        } else if self.body.len() == 0 {
            self.body = line;
        } else {
            self.body.push('\n');
            extend(&mut self.body, &line);
        }
        proof {
            let nd = done.push(line@);
            assert(nd.drop_last() =~= done);
            assert(self.view() =~= step(st, index as int, line@));
        }
    }
}

} // verus!
