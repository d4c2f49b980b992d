use wiki_builder::server::{
    content_type_for_extension, content_type_for_path, file_response_head, reload_body,
    reload_response_head, route_request, sanitize_url_path, InvalidPath, Route,
};

#[test]
fn sanitize_examples() {
    assert_eq!(sanitize_url_path("/"), Ok("index.html".to_string()));
    assert_eq!(sanitize_url_path(""), Ok("index.html".to_string()));
    assert_eq!(sanitize_url_path("///items/a.html"), Ok("items/a.html".to_string()));
    assert_eq!(sanitize_url_path("/my%20page.html"), Ok("my page.html".to_string()));
    assert_eq!(sanitize_url_path("/%2%200"), Ok("%2 0".to_string()));
    assert_eq!(sanitize_url_path("/a/../b"), Err(InvalidPath::ParentReference));
    assert_eq!(sanitize_url_path("/..."), Err(InvalidPath::ParentReference));
    assert_eq!(sanitize_url_path("/.%20."), Ok(". .".to_string()));
}

#[test]
fn routes() {
    assert!(matches!(route_request("/__reload"), Ok(Route::Reload)));
    assert!(matches!(route_request("/__reload/"), Ok(Route::File(p)) if p == "__reload/"));
    assert!(matches!(route_request("/items/"), Ok(Route::File(p)) if p == "items/"));
    assert!(matches!(route_request("/../etc"), Err(InvalidPath::ParentReference)));
}

#[test]
fn reload_bodies() {
    assert_eq!(reload_body(0), "{\"build\":0}");
    assert_eq!(reload_body(12345), "{\"build\":12345}");
    assert_eq!(reload_body(u64::MAX), format!("{{\"build\":{}}}", u64::MAX));
    let head = reload_response_head();
    assert_eq!(head.status, 200);
    assert_eq!(head.content_type, "application/json");
}

#[test]
fn content_types() {
    assert_eq!(content_type_for_path("out/index.html"), "text/html; charset=utf-8");
    assert_eq!(content_type_for_path("a.css"), "text/css; charset=utf-8");
    assert_eq!(content_type_for_path("a.js"), "application/javascript; charset=utf-8");
    assert_eq!(content_type_for_path("a.json"), "application/json; charset=utf-8");
    assert_eq!(content_type_for_path("a.png"), "image/png");
    assert_eq!(content_type_for_path("a.jpg"), "image/jpeg");
    assert_eq!(content_type_for_path("a.jpeg"), "image/jpeg");
    assert_eq!(content_type_for_path("a.webp"), "image/webp");
    assert_eq!(content_type_for_path("a.svg"), "image/svg+xml");
    assert_eq!(content_type_for_path("robots.txt"), "text/plain; charset=utf-8");
    assert_eq!(content_type_for_path("Makefile"), "application/octet-stream");
    assert_eq!(content_type_for_path("a.HTML"), "application/octet-stream");
    assert_eq!(content_type_for_path(".html"), "application/octet-stream");
    assert_eq!(content_type_for_extension(""), "application/octet-stream");
}

#[test]
fn file_heads() {
    let missing = file_response_head(false, "out/x.png");
    assert_eq!((missing.status, missing.content_type), (404, "text/plain; charset=utf-8"));
    let found = file_response_head(true, "out/x.png");
    assert_eq!((found.status, found.content_type), (200, "image/png"));
}

#[test]
fn served_paths_stay_inside() {
    for url in ["/", "//a", "/a%20b", "/.%20./x", "/%2e%2e/x", "/a/b/c.html", "x"] {
        if let Ok(p) = sanitize_url_path(url) {
            assert!(!p.contains(".."), "{:?}", url);
            assert!(!p.starts_with('/'), "{:?}", url);
            assert!(!p.is_empty(), "{:?}", url);
        }
    }
}
