use broadcast_hub::{http_response, is_upgrade_request, request_path, route, ContentType, Route};

#[test]
fn sniffs_upgrade_requests() {
    assert!(is_upgrade_request("GET /chat HTTP/1.1\r\nUpgrade: websocket\r\n\r\n"));
    assert!(!is_upgrade_request("GET /pkg/ws.js HTTP/1.1\r\nHost: x\r\n\r\n"));
    assert!(!is_upgrade_request("GET /x HTTP/1.1\r\nX-Note: Upgrade: websocket\r\n\r\n"));
    assert!(is_upgrade_request("GET /ws/room HTTP/1.1\r\n\r\n"));
    assert!(is_upgrade_request("GET /ws HTTP/1.1\r\nHost: x\r\n\r\n"));
    assert!(!is_upgrade_request("GET /index.html HTTP/1.1\r\nHost: x\r\n\r\n"));
    assert!(!is_upgrade_request(""));
    assert!(!is_upgrade_request("GET / HTTP/1.1\r\nupgrade: websocket\r\n"));
}

#[test]
fn reads_the_request_path() {
    assert_eq!(request_path("GET /play HTTP/1.1\r\nHost: x\r\n\r\n"), Some("/play".to_string()));
    assert_eq!(request_path("GET  \t/a/b.js   HTTP/1.1"), Some("/a/b.js".to_string()));
    assert_eq!(request_path("GET /x"), Some("/x".to_string()));
    assert_eq!(request_path("GET\n/x HTTP/1.1"), None);
    assert_eq!(request_path("GET\u{3000}/y\u{A0}HTTP/1.1"), Some("/y".to_string()));
    assert_eq!(request_path(""), None);
}

fn file(p: &str, c: ContentType) -> Route {
    Route::File { path: p.to_string(), content_type: c }
}

#[test]
fn routes_paths() {
    assert_eq!(route("/"), file("index.html", ContentType::Html));
    assert_eq!(route("/play"), file("play.html", ContentType::Html));
    assert_eq!(route("/health"), Route::Health);
    assert_eq!(route("/pkg/app.js"), file("pkg/app.js", ContentType::JavaScript));
    assert_eq!(route("/pkg/app_bg.wasm"), file("pkg/app_bg.wasm", ContentType::Wasm));
    assert_eq!(route("/pkg/app.d.ts"), file("pkg/app.d.ts", ContentType::OctetStream));
    assert_eq!(route("/public/data.json"), file("public/data.json", ContentType::Json));
    assert_eq!(route("/public/a.css"), file("public/a.css", ContentType::Css));
    assert_eq!(route("/public/logo.png"), file("public/logo.png", ContentType::Png));
    assert_eq!(route("/public/notes.txt"), file("public/notes.txt", ContentType::PlainText));
    assert_eq!(ContentType::Wasm.as_str(), "application/wasm");
    assert_eq!(ContentType::Css.as_str(), "text/css");
    assert_eq!(ContentType::Html.as_str(), "text/html");
}

#[test]
fn unmatched_and_escaping_paths_are_not_found() {
    assert_eq!(route("/readme.txt"), Route::NotFound);
    assert_eq!(route("/../../etc/passwd"), Route::NotFound);
    assert_eq!(route("/pkg/../../etc/passwd"), Route::NotFound);
    assert_eq!(route("/public/..\\secret"), Route::NotFound);
    assert_eq!(route("/public\\..\\x"), Route::NotFound);
    assert_eq!(route(""), Route::NotFound);
}

#[test]
fn builds_found_response_with_raw_body() {
    let body: Vec<u8> = vec![0, 97, 115, 109, 255, 1];
    let r = http_response(Some(body.clone()), ContentType::Wasm);
    let mut expected = b"HTTP/1.1 200 OK\r\nContent-Type: application/wasm\r\nContent-Length: 6\r\n\r\n".to_vec();
    expected.extend_from_slice(&body);
    assert_eq!(r, expected);
}

#[test]
fn content_length_is_decimal() {
    let r = http_response(Some(vec![b'x'; 1234]), ContentType::PlainText);
    let head = b"HTTP/1.1 200 OK\r\nContent-Type: text/plain\r\nContent-Length: 1234\r\n\r\n";
    assert_eq!(&r[..head.len()], &head[..]);
    assert_eq!(r.len(), head.len() + 1234);
    let empty = http_response(Some(Vec::new()), ContentType::Json);
    assert_eq!(empty, b"HTTP/1.1 200 OK\r\nContent-Type: application/json\r\nContent-Length: 0\r\n\r\n".to_vec());
}

#[test]
fn builds_not_found_response() {
    assert_eq!(
        http_response(None, ContentType::Html),
        b"HTTP/1.1 404 Not Found\r\nContent-Length: 9\r\n\r\n404 Error".to_vec()
    );
}
