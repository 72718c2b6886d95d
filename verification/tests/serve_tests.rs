use mindcache::serve::{
    cache_control, content_type, not_found, ok_head, percent_decode, percent_decode_fits, read_failed,
    serve_fits, serve_target,
};

#[test]
fn percent_escapes_are_decoded() {
    assert_eq!(percent_decode("a%20b"), "a b");
    assert_eq!(percent_decode("%E4%BD%A0%e5%a5%bd"), "你好");
    assert_eq!(percent_decode("100%"), "100%");
    assert_eq!(percent_decode("%zz%4"), "%zz%4");
    assert_eq!(percent_decode("%+9"), "\t");
    assert_eq!(percent_decode("%+1"), "\u{1}");
    assert_eq!(percent_decode("%FF"), "\u{fffd}");
    assert_eq!(percent_decode("plain/path.html"), "plain/path.html");
}

#[test]
fn percent_decoding_needs_whole_characters() {
    assert!(percent_decode_fits("a%20b"));
    assert!(percent_decode_fits("%é"));
    assert_eq!(percent_decode("%é"), "%é");
    assert!(!percent_decode_fits("%aé"));
    assert!(!percent_decode_fits("/a%2é%41"));
}

#[test]
fn request_targets() {
    assert_eq!(serve_target("GET / HTTP/1.1\r\nHost: x\r\n\r\n"), Some("index.html".to_string()));
    assert_eq!(serve_target("GET /pages/a%20b.html?x=1 HTTP/1.1"), Some("pages/a b.html".to_string()));
    assert_eq!(serve_target("GET //tags.html HTTP/1.1"), Some("tags.html".to_string()));
    assert_eq!(serve_target("GET /?q HTTP/1.1"), Some("index.html".to_string()));
    assert_eq!(serve_target("GET"), None);
    assert_eq!(serve_target(""), None);
    assert!(serve_fits("GET / HTTP/1.1"));
    assert!(!serve_fits("GET /%aé HTTP/1.1"));
}

#[test]
fn content_types_and_caching() {
    assert_eq!(content_type("html"), "text/html; charset=utf-8");
    assert_eq!(content_type("json"), "application/json");
    assert_eq!(content_type("jpeg"), "image/jpeg");
    assert_eq!(content_type("woff2"), "font/woff2");
    assert_eq!(content_type(""), "application/octet-stream");
    assert_eq!(cache_control("woff2"), "public, max-age=86400");
    assert_eq!(cache_control("html"), "no-store");
}

#[test]
fn response_heads() {
    assert_eq!(
        ok_head("css", 12),
        "HTTP/1.1 200 OK\r\nContent-Type: text/css; charset=utf-8\r\nContent-Length: 12\r\nCache-Control: no-store\r\n\r\n"
    );
    assert_eq!(not_found(), "HTTP/1.1 404 NOT FOUND\r\nContent-Type: text/html; charset=utf-8\r\n\r\n<h1>404</h1>");
    assert_eq!(read_failed(), "HTTP/1.1 500 ERR\r\n\r\n");
}
