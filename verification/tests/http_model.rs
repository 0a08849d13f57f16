use hyperflow::decimal::{parse_u32, u64_to_dec};
use hyperflow::http::{Header, Method, Request, Response, URL};

fn h(key: &str, value: &str) -> Header {
    Header { key: String::from(key), value: String::from(value) }
}

#[test]
fn method_tokens_are_case_exact() {
    assert_eq!(Method::from("GET").unwrap(), Method::GET);
    assert_eq!(Method::from("POST").unwrap(), Method::POST);
    assert_eq!(Method::from("PUT").unwrap(), Method::PUT);
    assert_eq!(Method::from("DELETE").unwrap(), Method::DELETE);
    assert_eq!(Method::from("PATCH").unwrap(), Method::PATCH);
    assert!(Method::from("get").is_err());
    assert!(Method::from("HEAD").is_err());
    assert!(Method::from("").is_err());
}

#[test]
fn url_renders_scheme_host_path() {
    let url = URL {
        scheme: String::from("http"),
        host: String::from("example.com"),
        path: String::from("/x"),
    };
    assert_eq!(url.to_string(), "http://example.com/x");
    assert_eq!(URL::empty().to_string(), "://");
}

#[test]
fn pseudo_headers_fill_request_fields() {
    let req = Request::from_h2_headers(vec![
        h(":method", "POST"),
        h(":scheme", "https"),
        h(":authority", "example.com"),
        h(":path", "/submit"),
        h("content-length", "5"),
    ])
    .unwrap();
    assert_eq!(req.method, Method::POST);
    assert_eq!(req.url.to_string(), "https://example.com/submit");
    assert_eq!(req.len, 5);
    assert!(req.headers.is_empty());
    assert!(req.body().is_empty());
}

#[test]
fn regular_headers_are_forwarded_in_order() {
    let req = Request::from_h2_headers(vec![
        h("accept", "text/html"),
        h(":method", "GET"),
        h("user-agent", "smoke"),
    ])
    .unwrap();
    assert_eq!(req.headers.len(), 2);
    assert_eq!(req.headers[0].key, "accept");
    assert_eq!(req.headers[0].value, "text/html");
    assert_eq!(req.headers[1].key, "user-agent");
    assert_eq!(req.headers[1].value, "smoke");
}

#[test]
fn later_pseudo_header_wins() {
    let req = Request::from_h2_headers(vec![h(":path", "/a"), h(":path", "/b")]).unwrap();
    assert_eq!(req.url.path, "/b");
}

#[test]
fn invalid_method_token_fails_request() {
    assert!(Request::from_h2_headers(vec![h(":method", "FETCH")]).is_err());
}

#[test]
fn invalid_content_length_fails_request() {
    assert!(Request::from_h2_headers(vec![h("content-length", "five")]).is_err());
    assert!(Request::from_h2_headers(vec![h("content-length", "")]).is_err());
    assert!(Request::from_h2_headers(vec![h("content-length", "4294967296")]).is_err());
}

#[test]
fn content_length_accepts_plain_and_signed_decimals() {
    assert_eq!(parse_u32("0").unwrap(), 0);
    assert_eq!(parse_u32("5").unwrap(), 5);
    assert_eq!(parse_u32("+7").unwrap(), 7);
    assert_eq!(parse_u32("4294967295").unwrap(), u32::MAX);
    assert!(parse_u32("4294967296").is_none());
    assert!(parse_u32("-1").is_none());
    assert!(parse_u32("+").is_none());
    assert!(parse_u32("1 2").is_none());
    assert!(parse_u32("").is_none());
}

#[test]
fn numbers_render_in_decimal() {
    assert_eq!(u64_to_dec(0), "0");
    assert_eq!(u64_to_dec(9), "9");
    assert_eq!(u64_to_dec(10), "10");
    assert_eq!(u64_to_dec(200), "200");
    assert_eq!(u64_to_dec(u64::MAX), "18446744073709551615");
}

#[test]
fn request_body_is_attached_whole() {
    let mut req = Request::from_h2_headers(vec![h("content-length", "2")]).unwrap();
    req.set_body(vec![104, 105]);
    assert_eq!(req.body(), &vec![104, 105]);
}

#[test]
fn response_wire_headers_append_status_and_length() {
    let resp = Response {
        status: 200,
        headers: vec![h("server", "hyperflow")],
        body: vec![104, 105],
    };
    let wire = resp.h2headers();
    assert_eq!(wire.len(), 3);
    assert_eq!(wire[0].key, "server");
    assert_eq!(wire[0].value, "hyperflow");
    assert_eq!(wire[1].key, ":status");
    assert_eq!(wire[1].value, "200");
    assert_eq!(wire[2].key, "content-length");
    assert_eq!(wire[2].value, "2");
}

#[test]
fn response_wire_headers_keep_existing_content_length() {
    let resp = Response {
        status: 404,
        headers: vec![h("content-length", "999")],
        body: Vec::new(),
    };
    let wire = resp.h2headers();
    assert_eq!(wire.len(), 3);
    assert_eq!(wire[0].key, "content-length");
    assert_eq!(wire[0].value, "999");
    assert_eq!(wire[1].value, "404");
    assert_eq!(wire[2].key, "content-length");
    assert_eq!(wire[2].value, "0");
}

#[test]
fn empty_header_block_yields_the_default_request() {
    let req = Request::from_h2_headers(Vec::new()).unwrap();
    assert_eq!(req.method, Method::GET);
    assert_eq!(req.url.to_string(), "://");
    assert_eq!(req.len, 0);
    assert!(req.headers.is_empty());
    assert!(req.body().is_empty());
}

#[test]
fn header_parse_errors_are_identifiable() {
    assert_eq!(Method::from("get").unwrap_err(), "Invalid HTTP Method");
    assert_eq!(
        Request::from_h2_headers(vec![h(":method", "FETCH")]).unwrap_err(),
        "Invalid HTTP Method"
    );
    assert_eq!(
        Request::from_h2_headers(vec![h("content-length", "five")]).unwrap_err(),
        "invalid content-length value"
    );
    assert_eq!(
        Request::from_h2_headers(vec![h(":method", "FETCH"), h("content-length", "five")])
            .unwrap_err(),
        "Invalid HTTP Method"
    );
}
