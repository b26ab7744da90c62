use httpserver::handler::{
    content_type_for, deal_dir_resource, deal_file_resource, is_binary_file, listing_response,
    parent_path, strip_query, DirEntry, FileBody, Located, NotFoundHandler, Resolution,
    StaticResourceHandler,
};

#[test]
fn query_is_cut_off() {
    assert_eq!(strip_query("/css/style.css?v=1"), "/css/style.css");
    assert_eq!(strip_query("/a?b?c"), "/a");
    assert_eq!(strip_query("/plain"), "/plain");
}

#[test]
fn candidate_joins_root_and_path() {
    assert_eq!(
        StaticResourceHandler::candidate_path("/srv/www", "/fonts/a.woff?v=4.7.0"),
        "/srv/www//fonts/a.woff"
    );
}

#[test]
fn traversal_outside_root_is_not_found() {
    let root = "/srv/www";
    let cand = StaticResourceHandler::candidate_path(root, "/../../etc/passwd");
    assert_eq!(cand, "/srv/www//../../etc/passwd");
    // What canonicalizing that candidate gives on a disk where it exists.
    let found = Some(Located { canonical: "/etc/passwd".to_string(), is_dir: false });
    assert_eq!(StaticResourceHandler::handle_request(root, found), Resolution::NotFound);
}

#[test]
fn sibling_with_common_prefix_is_outside() {
    let found = Some(Located { canonical: "/srv/www2/x.html".to_string(), is_dir: false });
    assert_eq!(StaticResourceHandler::handle_request("/srv/www", found), Resolution::NotFound);
}

#[test]
fn files_and_directories_inside_root_resolve() {
    let file = Some(Located { canonical: "/srv/www/a/b.html".to_string(), is_dir: false });
    assert_eq!(
        StaticResourceHandler::handle_request("/srv/www", file),
        Resolution::File("/srv/www/a/b.html".to_string())
    );
    let dir = Some(Located { canonical: "/srv/www".to_string(), is_dir: true });
    assert_eq!(
        StaticResourceHandler::handle_request("/srv/www", dir),
        Resolution::Directory("/srv/www".to_string())
    );
    let under_slash_root = Some(Located { canonical: "/etc".to_string(), is_dir: true });
    assert_eq!(
        StaticResourceHandler::handle_request("/", under_slash_root),
        Resolution::Directory("/etc".to_string())
    );
    assert_eq!(StaticResourceHandler::handle_request("/srv/www", None), Resolution::NotFound);
}

#[test]
fn content_types_by_ending() {
    assert_eq!(content_type_for("/a/index.html"), "text/html; charset=utf-8");
    assert_eq!(content_type_for("a.jpeg"), "image/jpeg");
    assert_eq!(content_type_for("a.woff2"), "font/woff2");
    assert_eq!(content_type_for("a.tar.gz"), "application/gzip");
    assert_eq!(content_type_for("README"), "application/octet-stream");
    assert!(is_binary_file("logo.png"));
    assert!(is_binary_file("doc.pdf"));
    assert!(!is_binary_file("notes.md"));
    assert!(!is_binary_file("data"));
}

#[test]
fn file_responses() {
    let text = deal_file_resource("/srv/www/a.css", Some(FileBody::Text("body{}".to_string())), None);
    assert_eq!(
        text.as_text(),
        "HTTP/1.1 200 OK\r\nContent-Type: text/css; charset=utf-8\r\nContent-Length: 6\r\n\r\nbody{}"
    );
    let bin = deal_file_resource("/srv/www/a.png", Some(FileBody::Binary(vec![137, 80])), None);
    let mut expected =
        b"HTTP/1.1 200 OK\r\nContent-Type: image/png\r\nContent-Length: 2\r\n\r\n".to_vec();
    expected.extend_from_slice(&[137, 80]);
    assert_eq!(bin.to_bytes(), expected);
    let missing = deal_file_resource("/srv/www/a.png", None, None);
    assert_eq!(
        missing.as_text(),
        "HTTP/1.1 404 Not Found\r\nContent-Type: text/html\r\nContent-Length: 0\r\n\r\n"
    );
    let unreadable = deal_file_resource("/srv/www/a.txt", None, Some("gone".to_string()));
    assert_eq!(
        unreadable.as_text(),
        NotFoundHandler::handle_request(Some("gone".to_string())).as_text()
    );
}

#[test]
fn not_found_page() {
    let r = NotFoundHandler::handle_request(Some("gone".to_string()));
    assert_eq!(
        r.as_text(),
        "HTTP/1.1 404 Not Found\r\nContent-Type: text/html\r\nContent-Length: 4\r\n\r\ngone"
    );
}

#[test]
fn parents_of_paths() {
    assert_eq!(parent_path("/docs/api"), "/docs");
    assert_eq!(parent_path("/docs"), "/");
    assert_eq!(parent_path("/docs/"), "/");
    assert_eq!(parent_path("docs"), "/");
    assert_eq!(parent_path("/a//b"), "/a");
    assert_eq!(parent_path("/a/./b"), "/a");
    assert_eq!(parent_path("/a/b/."), "/a");
    assert_eq!(parent_path("/a/./c/b"), "/a/./c");
    assert_eq!(parent_path("/."), "/");
    assert_eq!(parent_path("/a/.."), "/a");
}

#[test]
fn directory_listing_links() {
    let entries = vec![
        DirEntry { name: "a.html".to_string(), is_dir: false },
        DirEntry { name: "sub".to_string(), is_dir: true },
    ];
    let root = deal_dir_resource("/", &entries);
    assert!(root.parent.is_none());
    assert_eq!(root.items[0].link, "/a.html");
    assert_eq!(root.items[1].link, "/sub");
    assert!(root.items[1].is_dir);
    let nested = deal_dir_resource("/x/y", &entries);
    assert_eq!(nested.parent, Some("/x".to_string()));
    assert_eq!(nested.items[0].link, "/x/y/a.html");
    assert_eq!(nested.items[0].name, "a.html");
    assert_eq!(nested.path, "/x/y");
}

#[test]
fn listing_response_is_html() {
    let r = listing_response("<p>x</p>".to_string());
    assert_eq!(
        r.as_text(),
        "HTTP/1.1 200 OK\r\nContent-Type: text/html; charset=utf-8\r\nContent-Length: 8\r\n\r\n<p>x</p>"
    );
}
