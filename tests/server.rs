use rust_webserver::config::bind_address;
use rust_webserver::pages::{
    about_response, key_script_response, listing_csv, listing_pattern, listing_response,
    status_page,
};
use rust_webserver::request::{classify, content_lengths, request_path, BodyReader, Method};
use rust_webserver::response::{bytes_response, frame, str_response, Mime, Status};
use rust_webserver::router::{
    is_allowed, key_is_usable, listing_for, mime_for, route_get, serve_decision, Category, Route,
    Served,
};
use rust_webserver::upload::{
    image_text, plan_upload, split_upload, upload_file, upload_target, UploadError,
};

fn route_of_request(req: &[u8], key: &Option<Vec<u8>>) -> Route {
    assert_eq!(classify(req), Method::Get);
    let path = request_path(req);
    route_get(&path, key)
}

fn static_path(r: Route) -> Vec<u8> {
    match r {
        Route::Static(p) => p,
        other => panic!("expected a file route, got {:?}", other),
    }
}

/// Splits a response at its first blank line.
fn split_response(r: &[u8]) -> (String, Vec<u8>) {
    let pos = r.windows(4).position(|w| w == b"\r\n\r\n").unwrap();
    (String::from_utf8(r[..pos].to_vec()).unwrap(), r[pos + 4..].to_vec())
}

fn content_length_of(head: &str) -> usize {
    let line = head.lines().find(|l| l.starts_with("Content-Length: ")).unwrap();
    line["Content-Length: ".len()..].parse().unwrap()
}

#[test]
fn mime_by_last_three_bytes() {
    assert_eq!(mime_for(b"favicon.ico"), Mime::Icon);
    assert_eq!(mime_for(b"uploads/a.jpg"), Mime::Jpeg);
    assert_eq!(mime_for(b"uploads/image-1.png"), Mime::Png);
    assert_eq!(mime_for(b"config/logo.svg"), Mime::Svg);
    assert_eq!(mime_for(b"index.html"), Mime::Html);
    assert_eq!(mime_for(b"config/page.xhtml"), Mime::Html);
    assert_eq!(mime_for(b"styles/main.css"), Mime::Css);
    assert_eq!(mime_for(b"scripts/app.js"), Mime::Javascript);
    assert_eq!(mime_for(b"uploads/note-1.json"), Mime::Plain);
    assert_eq!(mime_for(b"uploads/x.son"), Mime::Plain);
    assert_eq!(mime_for(b"config/readme.txt"), Mime::Plain);
    assert_eq!(mime_for(b"scripts/appjs"), Mime::Plain);
    assert_eq!(mime_for(b"js"), Mime::Plain);
    assert_eq!(mime_for(b""), Mime::Plain);
}

#[test]
fn mime_names() {
    assert_eq!(Mime::Icon.text(), b"image/x-icon".to_vec());
    assert_eq!(Mime::Jpeg.text(), b"image/jpeg".to_vec());
    assert_eq!(Mime::Png.text(), b"image/png".to_vec());
    assert_eq!(Mime::Svg.text(), b"image/svg+xml".to_vec());
    assert_eq!(Mime::Html.text(), b"text/html".to_vec());
    assert_eq!(Mime::Css.text(), b"text/css".to_vec());
    assert_eq!(Mime::Javascript.text(), b"application/javascript".to_vec());
    assert_eq!(Mime::Plain.text(), b"text/plain".to_vec());
    assert_eq!(Mime::Csv.text(), b"text/csv".to_vec());
    assert_eq!(Mime::Script.text(), b"text/js".to_vec());
    assert!(Mime::Png.is_image() && Mime::Icon.is_image() && Mime::Svg.is_image());
    assert!(Mime::Jpeg.is_image());
    assert!(!Mime::Plain.is_image() && !Mime::Html.is_image() && !Mime::Javascript.is_image());
}

#[test]
fn root_and_query_serve_index() {
    let none: Option<Vec<u8>> = None;
    assert_eq!(static_path(route_of_request(b"GET / HTTP/1.1\r\nHost: x\r\n\r\n", &none)), b"index.html".to_vec());
    assert_eq!(static_path(route_of_request(b"GET /?anything HTTP/1.1\r\n\r\n", &none)), b"index.html".to_vec());
    assert_eq!(static_path(route_of_request(b"GET /", &none)), b"index.html".to_vec());
}

#[test]
fn request_path_drops_slash_and_query() {
    assert_eq!(request_path(b"GET /styles/main.css?v=2 HTTP/1.1\r\n"), b"styles/main.css".to_vec());
    assert_eq!(request_path(b"GET /index.html\tHTTP/1.1"), b"index.html".to_vec());
    assert_eq!(request_path(b"GET /a\x00\x00"), b"a\x00\x00".to_vec());
}

#[test]
fn methods_by_prefix() {
    assert_eq!(classify(b"GET / HTTP/1.1"), Method::Get);
    assert_eq!(classify(b"POST / HTTP/1.1"), Method::Post);
    assert_eq!(classify(b"PUT / HTTP/1.1"), Method::Other);
    assert_eq!(classify(b"GET"), Method::Other);
    assert_eq!(classify(b""), Method::Other);
    assert_eq!(status_page(Status::BadRequest), b"HTTP/1.1 400 BAD REQUEST\r\nContent-Length: 27\r\nContent-type: text/html\r\n\r\n<h1>400 - Bad Request!</h1>".to_vec());
}

#[test]
fn disallowed_existing_file_is_unauthorized() {
    assert_eq!(serve_decision(b"etc/passwd", true), Served::Unauthorized);
    assert_eq!(serve_decision(b"src/main.rs", true), Served::Unauthorized);
    assert!(!is_allowed(b"etc/passwd"));
    let r = status_page(Status::Unauthorized);
    assert_eq!(r, b"HTTP/1.1 401 UNAUTHORIZED\r\nContent-Length: 28\r\nContent-type: text/html\r\n\r\n<h1>401 - Unauthorized!</h1>".to_vec());
}

#[test]
fn missing_file_is_not_found() {
    assert_eq!(serve_decision(b"scripts/missing.js", false), Served::NotFound);
    assert_eq!(serve_decision(b"etc/passwd", false), Served::NotFound);
    let r = status_page(Status::NotFound);
    assert_eq!(r, b"HTTP/1.1 404 NOT FOUND\r\nContent-Length: 30\r\nContent-type: text/html\r\n\r\n<h1>404 - Page Not Found!</h1>".to_vec());
}

#[test]
fn allowed_prefixes() {
    for p in ["config/a.json", "scripts/x.js", "styles/s.css", "uploads/u.png", "favicon.ico", "index.html", "selection.html", "?x"] {
        assert!(is_allowed(p.as_bytes()), "{}", p);
    }
    for p in ["", "conf", "about", "Index.html", "uploadsx"] {
        let want = p == "uploadsx";
        assert_eq!(is_allowed(p.as_bytes()), want, "{}", p);
    }
    assert_eq!(serve_decision(b"styles/main.css", true), Served::File(Mime::Css));
    assert_eq!(serve_decision(b"uploads/image-1.png", true), Served::File(Mime::Png));
}

#[test]
fn image_listing_is_comma_terminated_csv() {
    let none: Option<Vec<u8>> = None;
    let c = match route_of_request(b"GET /getImageNames HTTP/1.1\r\n", &none) {
        Route::Listing(c) => c,
        other => panic!("{:?}", other),
    };
    assert_eq!(c, Category::Image);
    assert_eq!(listing_pattern(c), b"uploads/image-*.png".to_vec());
    let paths = vec![b"uploads/image-1.png".to_vec(), b"uploads/image-2.png".to_vec()];
    assert_eq!(listing_csv(&paths), b"uploads/image-1.png,uploads/image-2.png,".to_vec());
    assert_eq!(
        listing_response(&paths),
        b"HTTP/1.1 200 OK\r\nContent-Length: 40\r\nContent-type: text/csv\r\n\r\nuploads/image-1.png,uploads/image-2.png,".to_vec()
    );
    assert_eq!(listing_csv(&Vec::new()), Vec::<u8>::new());
}

#[test]
fn listing_endpoints() {
    assert_eq!(listing_for(b"getPitResultsNames"), Some(Category::Pit));
    assert_eq!(listing_for(b"getImageNames"), Some(Category::Image));
    assert_eq!(listing_for(b"getMatchResultNames"), Some(Category::Match));
    assert_eq!(listing_for(b"getNoteNames"), Some(Category::Note));
    assert_eq!(listing_for(b"getOther"), None);
    assert_eq!(listing_pattern(Category::Pit), b"uploads/pit-*.json".to_vec());
    assert_eq!(listing_pattern(Category::Match), b"uploads/match-*.json".to_vec());
    assert_eq!(listing_pattern(Category::Note), b"uploads/note-*.json".to_vec());
    let none: Option<Vec<u8>> = None;
    assert_eq!(static_path(route_get(b"getOther", &none)), b"getOther".to_vec());
}

#[test]
fn json_upload_is_written_verbatim() {
    let body = b"name|||{\"a\":1}";
    let header = format!("POST / HTTP/1.1\r\nHost: x\r\nContent-Length: {}\r\n\r\n", body.len());
    assert_eq!(classify(header.as_bytes()), Method::Post);
    assert_eq!(content_lengths(header.as_bytes()), vec![Some(14)]);
    let u = plan_upload(body).unwrap();
    assert_eq!(u.path, b"uploads/name.json".to_vec());
    assert_eq!(u.contents, b"{\"a\":1}".to_vec());
    assert_eq!(status_page(Status::Success), b"HTTP/1.1 200 OK\r\nContent-Length: 17\r\nContent-type: text/html\r\n\r\n<h1>Got POST</h1>".to_vec());
}

#[test]
fn png_upload_is_decoded() {
    let u = plan_upload(b"pic|||data:image/png;base64,iVBORw0KGgo=").unwrap();
    assert_eq!(u.path, b"uploads/pic.png".to_vec());
    assert_eq!(u.contents, vec![0x89, 0x50, 0x4E, 0x47, 0x0D, 0x0A, 0x1A, 0x0A]);
    assert_eq!(image_text(b"data:image/png;base64,QUJD"), Some(b"QUJD".to_vec()));
    assert_eq!(image_text(b"data:image/jpeg;base64,QUJD"), None);
    assert_eq!(plan_upload(b"pic|||data:image/png;base64,QUJD").unwrap().contents, b"ABC".to_vec());
}

#[test]
fn upload_errors() {
    assert_eq!(plan_upload(b"no separator").unwrap_err(), UploadError::NoSeparator);
    assert_eq!(plan_upload(b"pic|||data:image/png;base64,!!!").unwrap_err(), UploadError::BadImage);
    assert_eq!(plan_upload(b"bad\xff|||{}").unwrap_err(), UploadError::NotText);
}

#[test]
fn upload_splits_at_separators() {
    assert_eq!(split_upload(b"a|||b|||c"), Some((b"a".to_vec(), b"b".to_vec())));
    assert_eq!(split_upload(b"a||||b"), Some((b"a".to_vec(), b"|b".to_vec())));
    assert_eq!(split_upload(b"|||"), Some((Vec::new(), Vec::new())));
    assert_eq!(split_upload(b"a||b"), None);
    assert_eq!(plan_upload(b"a|||b|||c").unwrap().contents, b"b".to_vec());
    assert_eq!(upload_target(b"x", true), b"uploads/x.png".to_vec());
    assert_eq!(upload_target(b"x", false), b"uploads/x.json".to_vec());
}

#[test]
fn content_length_fields() {
    assert_eq!(content_lengths(b"POST / HTTP/1.1\r\nHost: x\r\n\r\n"), Vec::<Option<usize>>::new());
    assert_eq!(
        content_lengths(b"POST / HTTP/1.1\r\nContent-Length: 3\r\nContent-Length: +12\r\n"),
        vec![Some(3), Some(12)]
    );
    assert_eq!(content_lengths(b"POST /\r\nContent-Length: abc\r\n"), vec![None]);
    assert_eq!(content_lengths(b"POST /\nContent-Length: \n"), vec![None]);
    assert_eq!(content_lengths(b"POST /\nContent-Length: 7: 8\r\n"), Vec::<Option<usize>>::new());
    assert_eq!(content_lengths(b"POST /\ncontent-length: 7\r\n"), Vec::<Option<usize>>::new());
    assert_eq!(content_lengths(b"POST /\nContent-Length: 99999999999999999999999\r\n"), vec![None]);
    assert_eq!(content_lengths(b"POST /\nContent-Length: 42"), vec![Some(4)]);
}

#[test]
fn body_gathered_over_partial_reads() {
    let mut r = BodyReader::new(2000);
    assert_eq!(r.wanted(), 1024);
    r.accept(&[1u8; 1024]);
    assert_eq!(r.wanted(), 976);
    assert!(!r.is_done());
    r.accept(&[2u8; 500]);
    assert_eq!(r.wanted(), 476);
    r.accept(&[3u8; 476]);
    assert!(r.is_done());
    assert_eq!(r.wanted(), 0);
    let body = r.into_body();
    assert_eq!(body.len(), 2000);
    assert_eq!(body[1023], 1);
    assert_eq!(body[1024], 2);
    assert_eq!(body[1524], 3);
    let empty = BodyReader::new(0);
    assert!(empty.is_done());
}

#[test]
fn text_length_counts_bytes() {
    let text = "héllo ✓";
    let r = str_response(Status::Success, Mime::Plain, text);
    let (head, body) = split_response(&r);
    assert_eq!(head, "HTTP/1.1 200 OK\r\nContent-Length: 10\r\nContent-type: text/plain");
    assert_eq!(content_length_of(&head), text.len());
    assert_ne!(text.chars().count(), text.len());
    assert_eq!(body, text.as_bytes().to_vec());
    assert_eq!(bytes_response(Status::Success, Mime::Plain, text.as_bytes()), r);
    assert_eq!(frame(b"200 OK", b"text/plain", b""), b"HTTP/1.1 200 OK\r\nContent-Length: 0\r\nContent-type: text/plain\r\n\r\n".to_vec());
    let big = vec![7u8; 12345];
    let (head, body) = split_response(&bytes_response(Status::Success, Mime::Png, &big));
    assert_eq!(content_length_of(&head), 12345);
    assert_eq!(body, big);
}

#[test]
fn uploaded_json_listed_once() {
    let u = plan_upload(b"note-7|||{\"n\":7}").unwrap();
    assert_eq!(u.path, b"uploads/note-7.json".to_vec());
    let paths = vec![b"uploads/note-1.json".to_vec(), u.path.clone(), b"uploads/note-8.json".to_vec()];
    let csv = String::from_utf8(listing_csv(&paths)).unwrap();
    assert!(csv.ends_with(','));
    let hits = csv.split(',').filter(|f| f.as_bytes() == u.path.as_slice()).count();
    assert_eq!(hits, 1);
}

#[test]
fn key_script_and_about() {
    let key = Some(b"abc123".to_vec());
    assert!(matches!(route_get(b"scripts/keys.js", &key), Route::KeyScript));
    assert!(key_is_usable(&key));
    for k in [None, Some(b"none".to_vec()), Some(Vec::new())] {
        assert!(!key_is_usable(&k));
        assert_eq!(static_path(route_get(b"scripts/keys.js", &k)), b"scripts/keys.js".to_vec());
    }
    assert_eq!(
        key_script_response(b"abc123"),
        b"HTTP/1.1 200 OK\r\nContent-Length: 16\r\nContent-type: text/js\r\n\r\nAPI_KEY=\"abc123\"".to_vec()
    );
    assert!(matches!(route_get(b"about", &None), Route::About));
    let (head, body) = split_response(&about_response());
    assert!(head.starts_with("HTTP/1.1 200 OK\r\n"));
    assert!(head.ends_with("Content-type: text/html"));
    assert_eq!(content_length_of(&head), body.len());
    let page = String::from_utf8(body).unwrap();
    assert!(page.starts_with("<!DOCTYPE html><html lang=\"en\"><head>"));
    assert!(page.contains("<h1>Liam Rank</h1>"));
    assert!(page.ends_with("</body></html>"));
}

#[test]
fn listen_address_from_tokens() {
    let toks = |v: &[&str]| v.iter().map(|s| s.as_bytes().to_vec()).collect::<Vec<Vec<u8>>>();
    assert_eq!(bind_address(&toks(&[])), b"0.0.0.0:8000".to_vec());
    assert_eq!(bind_address(&toks(&["port", "9000"])), b"0.0.0.0:9000".to_vec());
    assert_eq!(bind_address(&toks(&["port", "9000", "addr", "127.0.0.1"])), b"127.0.0.1:9000".to_vec());
    assert_eq!(bind_address(&toks(&["addr"])), b"0.0.0.0:8000".to_vec());
    assert_eq!(bind_address(&toks(&["addr", "a", "addr", "b"])), b"b:8000".to_vec());
}

#[test]
fn upload_file_from_decoded_payload() {
    let png = b"data:image/png;base64,QUJD";
    let u = upload_file(b"pic", png, Some(b"ABC".to_vec())).unwrap();
    assert_eq!(u.path, b"uploads/pic.png".to_vec());
    assert_eq!(u.contents, b"ABC".to_vec());
    assert_eq!(upload_file(b"pic", png, None).unwrap_err(), UploadError::BadImage);
    let u = upload_file(b"doc", b"[1,2]", None).unwrap();
    assert_eq!(u.path, b"uploads/doc.json".to_vec());
    assert_eq!(u.contents, b"[1,2]".to_vec());
}
