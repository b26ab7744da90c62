//! Resolution of a request path against the served root: the query is cut
//! off, the candidate is confined to the root, and files, directories and
//! misses each get their response. What lies on disk (whether a path exists,
//! its canonical form, its entries, its contents) is handed in.

use vstd::prelude::*;
use crate::headers::{HeaderSeq, Headers};
use crate::httprequest::HttpVersion;
use crate::httpresponse::{HttpResponse, status_text_of};
use crate::route::{ends_with, ends_with_chars};
use crate::text::{chars_eq, chars_of, copy_range, extend, find_char, find_from, string_of};

verus! {

/// The path without a query: the text before the first `?`.
pub open spec fn without_query(p: Seq<char>) -> Seq<char> {
    p.subrange(0, find_from(p, '?', 0))
}

/// Cuts the query off a request path.
pub fn strip_query(path: &str) -> (r: String)
    ensures
        r@ == without_query(path@),
{
    let p = chars_of(path);
    let k = find_char(&p, '?', 0);
    string_of(&copy_range(&p, 0, k))
}

/// The candidate path on disk: the root, a slash, the path without query.
pub open spec fn candidate(root: Seq<char>, path: Seq<char>) -> Seq<char> {
    root + "/"@ + without_query(path)
}

/// Whether the canonical path `p` is the canonical root `root` or lies
/// below it: equal, or `root` followed by a path separator.
pub open spec fn within(root: Seq<char>, p: Seq<char>) -> bool {
    ||| p == root
    ||| (root.len() > 0 && p.len() > root.len() && p.subrange(0, root.len() as int) == root && (
    root.last() == '/' || p[root.len() as int] == '/'))
}

/// Whether the canonical path `p` lies in the canonical root `root`.
pub fn is_within(root: &str, p: &str) -> (r: bool)
    ensures
        r == within(root@, p@),
{
    let rc = chars_of(root);
    let pc = chars_of(p);
    if chars_eq(&pc, &rc) {
        return true;
    }
    if rc.len() == 0 || pc.len() <= rc.len() {
        return false;
    }
    chars_eq(&copy_range(&pc, 0, rc.len()), &rc) && (rc[rc.len() - 1] == '/' || pc[rc.len()]
        == '/')
}

/// Where a request path leads.
#[derive(Debug, PartialEq, Eq)]
pub enum Resolution {
    /// Nothing that may be served: missing, unreadable, or outside the root.
    NotFound,
    /// A directory inside the root, by its canonical path.
    Directory(String),
    /// A file inside the root, by its canonical path.
    File(String),
}

/// A canonical path on disk, and whether it is a directory.
pub struct Located {
    pub canonical: String,
    pub is_dir: bool,
}

/// The resolution of a candidate whose canonical form is `found` (none if
/// it could not be had): outside the canonical root is not found, the same
/// as missing.
pub open spec fn resolution_of(root: Seq<char>, found: Option<(Seq<char>, bool)>) -> Option<(Seq<char>, bool)> {
    match found {
        Some((p, d)) => if within(root, p) {
            Some((p, d))
        } else {
            None
        },
        None => None,
    }
}

/// The content type of a file, by its name's ending.
pub open spec fn content_type_of(p: Seq<char>) -> Seq<char> {
    if ends_with(p, ".html"@) {
        "text/html; charset=utf-8"@
    } else if ends_with(p, ".css"@) {
        "text/css; charset=utf-8"@
    } else if ends_with(p, ".js"@) {
        "text/javascript; charset=utf-8"@
    } else if ends_with(p, ".json"@) {
        "application/json; charset=utf-8"@
    } else if ends_with(p, ".xml"@) {
        "application/xml; charset=utf-8"@
    } else if ends_with(p, ".txt"@) {
        "text/plain; charset=utf-8"@
    } else if ends_with(p, ".csv"@) {
        "text/csv; charset=utf-8"@
    } else if ends_with(p, ".md"@) {
        "text/markdown; charset=utf-8"@
    } else if ends_with(p, ".png"@) {
        "image/png"@
    } else if ends_with(p, ".jpg"@) || ends_with(p, ".jpeg"@) {
        "image/jpeg"@
    } else if ends_with(p, ".gif"@) {
        "image/gif"@
    } else if ends_with(p, ".ico"@) {
        "image/x-icon"@
    } else if ends_with(p, ".svg"@) {
        "image/svg+xml"@
    } else if ends_with(p, ".woff"@) {
        "font/woff"@
    } else if ends_with(p, ".woff2"@) {
        "font/woff2"@
    } else if ends_with(p, ".ttf"@) {
        "font/ttf"@
    } else if ends_with(p, ".eot"@) {
        "font/eot"@
    } else if ends_with(p, ".otf"@) {
        "font/otf"@
    } else if ends_with(p, ".wasm"@) {
        "application/wasm"@
    } else if ends_with(p, ".pdf"@) {
        "application/pdf"@
    } else if ends_with(p, ".zip"@) {
        "application/zip"@
    } else if ends_with(p, ".tar"@) {
        "application/x-tar"@
    } else if ends_with(p, ".gz"@) {
        "application/gzip"@
    } else if ends_with(p, ".bz2"@) {
        "application/x-bzip2"@
    } else {
        "application/octet-stream"@
    }
}

/// Whether a file is served as bytes rather than text, by its name's ending.
pub open spec fn binary_kind(p: Seq<char>) -> bool {
    ||| ends_with(p, ".png"@)
    ||| ends_with(p, ".jpg"@)
    ||| ends_with(p, ".jpeg"@)
    ||| ends_with(p, ".gif"@)
    ||| ends_with(p, ".ico"@)
    ||| ends_with(p, ".svg"@)
    ||| ends_with(p, ".woff"@)
    ||| ends_with(p, ".woff2"@)
    ||| ends_with(p, ".ttf"@)
    ||| ends_with(p, ".eot"@)
    ||| ends_with(p, ".otf"@)
    ||| ends_with(p, ".wasm"@)
    ||| ends_with(p, ".pdf"@)
    ||| ends_with(p, ".zip"@)
    ||| ends_with(p, ".tar"@)
    ||| ends_with(p, ".gz"@)
    ||| ends_with(p, ".bz2"@)
}

fn ends(p: &[char], suffix: &str) -> (r: bool)
    ensures
        r == ends_with(p@, suffix@),
{
    ends_with_chars(p, &chars_of(suffix))
}

fn text(s: &str) -> (r: String)
    ensures
        r@ == s@,
{
    s.to_owned()
}

/// The content type of a file.
pub fn content_type_for(file_path: &str) -> (r: String)
    ensures
        r@ == content_type_of(file_path@),
{
    let p = chars_of(file_path);
    if ends(&p, ".html") {
        text("text/html; charset=utf-8")
    } else if ends(&p, ".css") {
        text("text/css; charset=utf-8")
    } else if ends(&p, ".js") {
        text("text/javascript; charset=utf-8")
    } else if ends(&p, ".json") {
        text("application/json; charset=utf-8")
    } else if ends(&p, ".xml") {
        text("application/xml; charset=utf-8")
    } else if ends(&p, ".txt") {
        text("text/plain; charset=utf-8")
    } else if ends(&p, ".csv") {
        text("text/csv; charset=utf-8")
    } else if ends(&p, ".md") {
        text("text/markdown; charset=utf-8")
    } else if ends(&p, ".png") {
        text("image/png")
    } else if ends(&p, ".jpg") || ends(&p, ".jpeg") {
        text("image/jpeg")
    } else if ends(&p, ".gif") {
        text("image/gif")
    } else if ends(&p, ".ico") {
        text("image/x-icon")
    } else if ends(&p, ".svg") {
        text("image/svg+xml")
    } else if ends(&p, ".woff") {
        text("font/woff")
    } else if ends(&p, ".woff2") {
        text("font/woff2")
    } else if ends(&p, ".ttf") {
        text("font/ttf")
    } else if ends(&p, ".eot") {
        text("font/eot")
    } else if ends(&p, ".otf") {
        text("font/otf")
    } else if ends(&p, ".wasm") {
        text("application/wasm")
    } else if ends(&p, ".pdf") {
        text("application/pdf")
    } else if ends(&p, ".zip") {
        text("application/zip")
    } else if ends(&p, ".tar") {
        text("application/x-tar")
    } else if ends(&p, ".gz") {
        text("application/gzip")
    } else if ends(&p, ".bz2") {
        text("application/x-bzip2")
    } else {
        text("application/octet-stream")
    }
}

/// Whether a file is served as bytes.
pub fn is_binary_file(file_path: &str) -> (r: bool)
    ensures
        r == binary_kind(file_path@),
{
    let p = chars_of(file_path);
    ends(&p, ".png") || ends(&p, ".jpg") || ends(&p, ".jpeg") || ends(&p, ".gif") || ends(
        &p,
        ".ico",
    ) || ends(&p, ".svg") || ends(&p, ".woff") || ends(&p, ".woff2") || ends(&p, ".ttf") || ends(
        &p,
        ".eot",
    ) || ends(&p, ".otf") || ends(&p, ".wasm") || ends(&p, ".pdf") || ends(&p, ".zip") || ends(
        &p,
        ".tar",
    ) || ends(&p, ".gz") || ends(&p, ".bz2")
}

/// The contents of a file as read from disk.
pub enum FileBody {
    Text(String),
    Binary(Vec<u8>),
}

/// The response for a single content-type header.
pub open spec fn type_header(t: Seq<char>) -> HeaderSeq {
    seq![("Content-Type"@, t)]
}

fn type_headers(t: String) -> (r: Headers)
    ensures
        r.wf(),
        r@ == type_header(t@),
{
    let mut h = Headers::new();
    h.insert(text("Content-Type"), t);
    assert(h@ =~= type_header(t@));
    h
}

/// The response for a file inside the root, given what reading it gave
/// (none if it could not be read): its contents with a 200 and the content
/// type of its name, or the not-found response that a missing path gets,
/// carrying `not_found_page`. Files whose name marks them binary are read as
/// bytes, the others as text.
pub fn deal_file_resource(
    file_path: &str,
    contents: Option<FileBody>,
    not_found_page: Option<String>,
) -> (r: HttpResponse)
    requires
        contents matches Some(FileBody::Binary(_)) ==> binary_kind(file_path@),
        contents matches Some(FileBody::Text(_)) ==> !binary_kind(file_path@),
    ensures
        r.wf(),
        r@ == match contents {
            Some(FileBody::Text(t)) => (
                HttpVersion::HTTP11,
                "200"@,
                status_text_of("200"@),
                Some(type_header(content_type_of(file_path@))),
                Some(t@),
                None,
            ),
            Some(FileBody::Binary(b)) => (
                HttpVersion::HTTP11,
                "200"@,
                status_text_of("200"@),
                Some(type_header(content_type_of(file_path@))),
                None,
                Some(b@),
            ),
            None => not_found_state(not_found_page),
        },
{
    match contents {
        Some(FileBody::Text(t)) => {
            let h = type_headers(content_type_for(file_path));
            HttpResponse::new("200", Some(h), Some(t))
        },
        Some(FileBody::Binary(b)) => {
            let h = type_headers(content_type_for(file_path));
            HttpResponse::new_binary("200", Some(h), Some(b))
        },
        None => NotFoundHandler::handle_request(not_found_page),
    }
}

/// The not-found response: a 404 with the default headers, carrying the
/// not-found page if there is one.
pub open spec fn not_found_state(page: Option<String>) -> crate::httpresponse::ResponseState {
    (
        HttpVersion::HTTP11,
        "404"@,
        status_text_of("404"@),
        Some(crate::httpresponse::default_headers()),
        match page {
            Some(p) => Some(p@),
            None => None,
        },
        None,
    )
}

/// The end of `p[..j]` once trailing empty and `.` segments are dropped, as
/// `Path` ignores them; a leading root or segment stays.
pub open spec fn trim_back(p: Seq<char>, j: int) -> int
    decreases j,
{
    if j <= 1 || j > p.len() {
        j
    } else if p[j - 1] == '/' {
        trim_back(p, j - 1)
    } else if p[j - 1] == '.' && p[j - 2] == '/' {
        trim_back(p, j - 1)
    } else {
        j
    }
}

/// The start of the last segment of `p[..j]`: just after its last slash, or 0.
pub open spec fn segment_start(p: Seq<char>, j: int) -> int
    decreases j,
{
    if j <= 0 || j > p.len() {
        0
    } else if p[j - 1] == '/' {
        j
    } else {
        segment_start(p, j - 1)
    }
}

/// The parent of a URL path, as `Path::parent` gives it: empty and `.`
/// segments at the end are dropped, then the last component, then again the
/// empty and `.` segments before it. The root where there is no parent or
/// nothing is left.
pub open spec fn parent_of(p: Seq<char>) -> Seq<char> {
    let e = trim_back(p, p.len() as int);
    if e == 0 || (e == 1 && p[0] == '/') {
        "/"@
    } else {
        let r = trim_back(p, segment_start(p, e));
        if r == 0 {
            "/"@
        } else {
            p.subrange(0, r)
        }
    }
}

fn trim_back_exec(c: &[char], j: usize) -> (r: usize)
    requires
        j <= c@.len(),
    ensures
        r == trim_back(c@, j as int),
        r <= j,
{
    let mut k: usize = j;
    while k > 1 && (c[k - 1] == '/' || (c[k - 1] == '.' && c[k - 2] == '/'))
        invariant
            k <= j <= c@.len(),
            trim_back(c@, j as int) == trim_back(c@, k as int),
        decreases k,
    {
        k = k - 1;
    }
    k
}

/// The link to an entry `name` of the directory at URL path `dir`.
pub open spec fn entry_link(dir: Seq<char>, name: Seq<char>) -> Seq<char> {
    if dir == "/"@ {
        "/"@ + name
    } else {
        dir + "/"@ + name
    }
}

/// An entry of a directory on disk.
pub struct DirEntry {
    pub name: String,
    pub is_dir: bool,
}

/// An entry of a directory listing, with its link.
pub struct ListingItem {
    pub name: String,
    pub link: String,
    pub is_dir: bool,
}

/// What a directory listing shows: the directory's URL path, a link to its
/// parent unless it is the root, and its entries in the order given.
pub struct DirListing {
    pub path: String,
    pub parent: Option<String>,
    pub items: Vec<ListingItem>,
}

/// The parent of a URL path.
pub fn parent_path(p: &str) -> (r: String)
    ensures
        r@ == parent_of(p@),
{
    let c = chars_of(p);
    let e = trim_back_exec(&c, c.len());
    if e == 0 || (e == 1 && c[0] == '/') {
        return text("/");
    }
    let mut k: usize = e;
    while k > 0 && c[k - 1] != '/'
        invariant
            k <= e <= c@.len(),
            segment_start(c@, e as int) == segment_start(c@, k as int),
        decreases k,
    {
        k = k - 1;
    }
    let r = trim_back_exec(&c, k);
    if r == 0 {
        text("/")
    } else {
        string_of(&copy_range(&c, 0, r))
    }
}

/// The listing of the directory at URL path `current_path`, whose entries
/// are `entries`.
pub fn deal_dir_resource(current_path: &str, entries: &Vec<DirEntry>) -> (r: DirListing)
    ensures
        r.path@ == current_path@,
        current_path@ == "/"@ ==> r.parent is None,
        current_path@ != "/"@ ==> (r.parent matches Some(p) && p@ == parent_of(current_path@)),
        r.items@.len() == entries@.len(),
        forall|i: int|
            0 <= i < entries@.len() ==> {
                &&& (#[trigger] r.items@[i]).name@ == entries@[i].name@
                &&& r.items@[i].link@ == entry_link(current_path@, entries@[i].name@)
                &&& r.items@[i].is_dir == entries@[i].is_dir
            },
{
    let cur = chars_of(current_path);
    let at_root = chars_eq(&cur, &chars_of("/"));
    let parent = if at_root {
        None
    } else {
        Some(parent_path(current_path))
    };
    let mut items: Vec<ListingItem> = Vec::new();
    let mut i: usize = 0;
    while i < entries.len()
        invariant
            i <= entries@.len(),
            at_root == (current_path@ == "/"@),
            cur@ == current_path@,
            items@.len() == i,
            forall|k: int|
                0 <= k < i ==> {
                    &&& (#[trigger] items@[k]).name@ == entries@[k].name@
                    &&& items@[k].link@ == entry_link(current_path@, entries@[k].name@)
                    &&& items@[k].is_dir == entries@[k].is_dir
                },
        decreases entries@.len() - i,
    {
        let e = &entries[i];
        let mut link: Vec<char> = if at_root {
            chars_of("/")
        } else {
            let mut l = cur.clone();
            extend(&mut l, &chars_of("/"));
            l
        };
        extend(&mut link, &chars_of(e.name.as_str()));
        items.push(
            ListingItem {
                name: text(e.name.as_str()),
                link: string_of(&link),
                is_dir: e.is_dir,
            },
        );
        i = i + 1;
    }
    DirListing { path: text(current_path), parent, items }
}

/// The response that carries a rendered directory listing.
pub fn listing_response(html: String) -> (r: HttpResponse)
    ensures
        r.wf(),
        r@ == (
            HttpVersion::HTTP11,
            "200"@,
            status_text_of("200"@),
            Some(type_header("text/html; charset=utf-8"@)),
            Some(html@),
            None::<Seq<u8>>,
        ),
{
    let h = type_headers(text("text/html; charset=utf-8"));
    HttpResponse::new("200", Some(h), Some(html))
}

/// Serves files and directory listings from the root.
pub struct StaticResourceHandler {}

impl StaticResourceHandler {
    /// Builds the candidate path for a request path under `root`.
    pub fn candidate_path(root: &str, path: &str) -> (r: String)
        ensures
            r@ == candidate(root@, path@),
    {
        let mut out = chars_of(root);
        extend(&mut out, &chars_of("/"));
        let q = strip_query(path);
        extend(&mut out, &chars_of(q.as_str()));
        string_of(&out)
    }

    /// Decides what a located candidate leads to: the resolution step of
    /// answering a request, whose disk lookups are handed in. Never resolves
    /// to a path outside the root.
    pub fn handle_request(root: &str, found: Option<Located>) -> (r: Resolution)
        ensures
            match resolution_of(
                root@,
                match found {
                    Some(l) => Some((l.canonical@, l.is_dir)),
                    None => None,
                },
            ) {
                Some((p, true)) => r matches Resolution::Directory(d) && d@ == p,
                Some((p, false)) => r matches Resolution::File(f) && f@ == p,
                None => r is NotFound,
            },
            r matches Resolution::Directory(d) ==> within(root@, d@),
            r matches Resolution::File(f) ==> within(root@, f@),
    {
        match found {
            None => Resolution::NotFound,
            Some(l) => {
                if !is_within(root, l.canonical.as_str()) {
                    Resolution::NotFound
                } else if l.is_dir {
                    Resolution::Directory(l.canonical)
                } else {
                    Resolution::File(l.canonical)
                }
            },
        }
    }
}

/// Answers with 404.
pub struct NotFoundHandler {}

impl NotFoundHandler {
    /// A 404 response carrying the not-found page, if there is one.
    pub fn handle_request(page: Option<String>) -> (r: HttpResponse)
        ensures
            r.wf(),
            r@ == not_found_state(page),
    {
        HttpResponse::new("404", None, page)
    }
}

} // verus!
