use skadi::http::{
    content_type_for, dec_of, file_response, not_found_response, parse_request_target,
    resolve_static, split_nonempty,
};

#[test]
fn root_target_maps_to_the_entry_document() {
    let target = parse_request_target(b"GET / HTTP/1.1\r\nHost: localhost\r\n\r\n");
    assert_eq!(target, b"/index.html");
}

#[test]
fn explicit_target_is_taken_verbatim() {
    let target = parse_request_target(b"GET /app.js HTTP/1.1\r\n\r\n");
    assert_eq!(target, b"/app.js");
}

#[test]
fn missing_target_defaults_to_the_entry_document() {
    assert_eq!(parse_request_target(b""), b"/index.html");
    assert_eq!(parse_request_target(b"GET\r\n"), b"/index.html");
}

#[test]
fn traversal_out_of_the_root_is_rejected() {
    // the containment scenario: a target that would resolve outside the root
    assert!(resolve_static(b"/srv/dist", b"/../../etc/passwd").is_none());
    assert!(resolve_static(b"/srv/dist", b"/..").is_none());
    assert!(resolve_static(b"/srv/dist", b"/a/../../etc/passwd").is_none());
}

#[test]
fn plain_target_resolves_under_the_root() {
    let p = resolve_static(b"/srv/dist", b"/a/b.html").unwrap();
    assert_eq!(p, b"/srv/dist/a/b.html");
}

#[test]
fn inner_parent_steps_resolve_lexically() {
    let p = resolve_static(b"/srv/dist", b"/a/../b.html").unwrap();
    assert_eq!(p, b"/srv/dist/b.html");
}

#[test]
fn current_directory_segments_are_ignored() {
    let p = resolve_static(b"/srv/dist", b"/./a/./b").unwrap();
    assert_eq!(p, b"/srv/dist/a/b");
}

#[test]
fn a_target_naming_no_file_resolves_to_nothing() {
    assert!(resolve_static(b"/srv/dist", b"/").is_none());
    assert!(resolve_static(b"/srv/dist", b"").is_none());
    assert!(resolve_static(b"/srv/dist", b"/a/..").is_none());
}

#[test]
fn content_types_follow_the_extension() {
    assert_eq!(content_type_for(b"/d/index.html"), "text/html");
    assert_eq!(content_type_for(b"/d/style.css"), "text/css");
    assert_eq!(content_type_for(b"/d/app.js"), "application/javascript");
    assert_eq!(content_type_for(b"/d/data.json"), "application/json");
    assert_eq!(content_type_for(b"/d/i.png"), "image/png");
    assert_eq!(content_type_for(b"/d/i.jpg"), "image/jpeg");
    assert_eq!(content_type_for(b"/d/i.jpeg"), "image/jpeg");
    assert_eq!(content_type_for(b"/d/i.gif"), "image/gif");
    assert_eq!(content_type_for(b"/d/i.svg"), "image/svg+xml");
    assert_eq!(content_type_for(b"/d/f.woff"), "font/woff");
    assert_eq!(content_type_for(b"/d/f.woff2"), "font/woff2");
}

#[test]
fn unknown_or_missing_extensions_default_to_plain_text() {
    assert_eq!(content_type_for(b"/d/readme.txt"), "text/plain");
    assert_eq!(content_type_for(b"/d/noext"), "text/plain");
    assert_eq!(content_type_for(b"/d/.bashrc"), "text/plain");
    assert_eq!(content_type_for(b"/d.js/noext"), "text/plain");
}

#[test]
fn decimal_rendering_is_exact() {
    assert_eq!(dec_of(0), b"0");
    assert_eq!(dec_of(7), b"7");
    assert_eq!(dec_of(1234), b"1234");
    assert_eq!(dec_of(1000000), b"1000000");
}

#[test]
fn file_response_is_a_complete_http_message() {
    let r = file_response(b"/srv/dist/index.html", b"hello");
    assert_eq!(
        r,
        b"HTTP/1.1 200 OK\r\nContent-Type: text/html\r\nContent-Length: 5\r\n\r\nhello"
    );
}

#[test]
fn not_found_response_is_a_complete_http_message() {
    let r = not_found_response();
    assert_eq!(
        r,
        b"HTTP/1.1 404 NOT FOUND\r\nContent-Type: text/plain\r\nContent-Length: 13\r\n\r\n404 Not Found"
    );
}

#[test]
fn splitting_drops_empty_pieces() {
    let pieces = split_nonempty(b'/', b"//a//b/");
    assert_eq!(pieces, vec![b"a".to_vec(), b"b".to_vec()]);
}
