// The fetch interface: requests, responses and headers.

use browser_engine::fetch::{
    build_request, fetch, FetchError, Headers, Method, Request, RequestCache, RequestCredentials,
    RequestInfo, RequestInit, RequestMode, RequestRedirect, Response, ResponseType,
};

#[test]
fn test_request_creation() {
    let req = Request::new("https://example.com".to_string(), Method::Get);
    assert_eq!(req.url, "https://example.com");
    assert_eq!(req.method, Method::Get);
    assert_eq!(req.mode, RequestMode::Cors);
}

#[test]
fn test_request_with_init() {
    let mut req = Request::new("https://example.com".to_string(), Method::Get);

    let mut init = RequestInit::default();
    init.method = Some(Method::Post);
    init.credentials = Some(RequestCredentials::Include);

    req.apply_init(init).unwrap();

    assert_eq!(req.method, Method::Post);
    assert_eq!(req.credentials, RequestCredentials::Include);
}

#[test]
fn test_response_ok() {
    let resp = Response::new(200, "OK".to_string(), Headers::new(), vec![], "https://example.com".to_string());
    assert!(resp.ok());

    let resp_bad = Response::new(404, "Not Found".to_string(), Headers::new(), vec![], "https://example.com".to_string());
    assert!(!resp_bad.ok());
}

#[test]
fn test_response_text() {
    let mut resp = Response::new(
        200,
        "OK".to_string(),
        Headers::new(),
        b"Hello, World!".to_vec(),
        "https://example.com".to_string(),
    );

    let text = resp.text().unwrap();
    assert_eq!(text, "Hello, World!");

    // Body should be consumed
    assert!(resp.text().is_err());
}

#[test]
fn test_response_bytes() {
    let mut resp = Response::new(
        200,
        "OK".to_string(),
        Headers::new(),
        vec![1, 2, 3, 4],
        "https://example.com".to_string(),
    );

    let bytes = resp.bytes().unwrap();
    assert_eq!(bytes, vec![1, 2, 3, 4]);
}

#[test]
fn test_response_clone() {
    let resp = Response::new(200, "OK".to_string(), Headers::new(), vec![1, 2, 3], "https://example.com".to_string());

    let cloned = resp.clone_response().unwrap();
    assert_eq!(cloned.status, 200);
    assert_eq!(cloned.body, vec![1, 2, 3]);
}

#[test]
fn test_response_redirect() {
    let resp = Response::redirect("https://example.com/new".to_string(), 302).unwrap();

    assert_eq!(resp.status, 302);
    assert!(resp.redirected);
    assert_eq!(resp.headers.get("location"), Some("https://example.com/new"));
}

#[test]
fn test_invalid_redirect() {
    let result = Response::redirect("https://example.com".to_string(), 200);
    assert_eq!(result.err(), Some(FetchError::InvalidRedirect));
}

#[test]
fn test_headers_basic() {
    let mut headers = Headers::new();

    headers.set("Content-Type".to_string(), "application/json".to_string());
    assert_eq!(headers.get("content-type"), Some("application/json"));
    assert!(headers.has("Content-Type"));

    headers.delete("content-type");
    assert!(!headers.has("content-type"));
}

#[test]
fn test_headers_append() {
    let mut headers = Headers::new();

    headers.set("Accept".to_string(), "text/html".to_string());
    headers.append("Accept".to_string(), "application/json".to_string());

    assert_eq!(headers.get("accept"), Some("text/html, application/json"));
}

#[test]
fn test_headers_case_insensitive() {
    let mut headers = Headers::new();

    headers.set("Content-Type".to_string(), "text/plain".to_string());

    assert_eq!(headers.get("content-type"), Some("text/plain"));
    assert_eq!(headers.get("CONTENT-TYPE"), Some("text/plain"));
    assert_eq!(headers.get("Content-Type"), Some("text/plain"));
}

#[test]
fn test_headers_iteration() {
    let mut headers = Headers::new();

    headers.set("Content-Type".to_string(), "text/html".to_string());
    headers.set("Accept".to_string(), "application/json".to_string());

    let keys = headers.keys();
    assert_eq!(keys.len(), 2);

    let entries = headers.entries();
    assert_eq!(entries.len(), 2);
}

#[test]
fn test_fetch_basic() {
    let result = fetch(
        RequestInfo::Url("https://example.com".to_string()),
        None,
    );

    assert!(result.is_ok());
    let resp = result.unwrap();
    assert_eq!(resp.status, 200);
}

#[test]
fn test_fetch_with_options() {
    let mut init = RequestInit::default();
    init.method = Some(Method::Post);
    init.credentials = Some(RequestCredentials::Include);

    let result = fetch(
        RequestInfo::Url("https://example.com".to_string()),
        Some(init),
    );

    assert!(result.is_ok());
}

#[test]
fn test_request_modes() {
    let req = Request::new("https://example.com".to_string(), Method::Get);
    assert_eq!(req.mode, RequestMode::Cors);
    assert_eq!(req.credentials, RequestCredentials::SameOrigin);
    assert_eq!(req.redirect, RequestRedirect::Follow);
}

#[test]
fn test_request_defaults_and_copy() {
    let mut req = Request::new("https://example.com".to_string(), Method::Put);
    assert_eq!(req.cache, RequestCache::Default);
    assert_eq!(req.referrer, "about:client");
    assert_eq!(req.integrity, "");
    assert!(req.body.is_none());
    assert_eq!(req.headers.keys().len(), 0);
    let mut headers = Headers::new();
    headers.set("X-A".to_string(), "1".to_string());
    let init = RequestInit {
        headers: Some(headers),
        body: Some(vec![1, 2]),
        mode: Some(RequestMode::NoCors),
        cache: Some(RequestCache::Reload),
        redirect: Some(RequestRedirect::Manual),
        referrer: Some("r".to_string()),
        integrity: Some("sha".to_string()),
        ..Default::default()
    };
    req.apply_init(init).unwrap();
    assert_eq!(req.method, Method::Put);
    assert_eq!(req.credentials, RequestCredentials::SameOrigin);
    let copy = req.clone_request();
    assert_eq!(copy.url, "https://example.com");
    assert_eq!(copy.headers.get("x-a"), Some("1"));
    assert_eq!(copy.body, Some(vec![1, 2]));
    assert_eq!(copy.mode, RequestMode::NoCors);
    assert_eq!(copy.cache, RequestCache::Reload);
    assert_eq!(copy.redirect, RequestRedirect::Manual);
    assert_eq!(copy.referrer, "r");
    assert_eq!(copy.integrity, "sha");
}

#[test]
fn test_build_request() {
    let mut init = RequestInit::default();
    init.credentials = Some(RequestCredentials::Omit);
    let built = build_request(RequestInfo::Url("u".to_string()), Some(init));
    assert_eq!(built.method, Method::Get);
    assert_eq!(built.credentials, RequestCredentials::Omit);
    let mut init = RequestInit::default();
    init.method = Some(Method::Delete);
    let built = build_request(RequestInfo::Url("u".to_string()), Some(init.clone()));
    assert_eq!(built.method, Method::Delete);
    // a request that is given is taken as it is
    let given = Request::new("v".to_string(), Method::Head);
    let built = build_request(RequestInfo::Request(given), Some(init));
    assert_eq!(built.method, Method::Head);
    assert_eq!(built.url, "v");
    let response = fetch(RequestInfo::Request(built), None).unwrap();
    assert_eq!(response.url, "v");
    assert_eq!(response.status_text, "OK");
    assert!(response.ok());
}

#[test]
fn test_response_status_ranges() {
    for (status, ok) in [(199, false), (200, true), (299, true), (300, false), (0, false)] {
        let resp = Response::new(status, "".to_string(), Headers::new(), vec![], "".to_string());
        assert_eq!(resp.ok(), ok);
    }
    let error = Response::error();
    assert_eq!(error.status, 0);
    assert_eq!(error.response_type, ResponseType::Error);
    assert!(!error.ok());
    for status in [301, 302, 303, 307, 308] {
        let resp = Response::redirect("/next".to_string(), status).unwrap();
        assert_eq!(resp.status, status);
        assert_eq!(resp.status_text, "Redirect");
        assert_eq!(resp.url, "/next");
        assert_eq!(resp.headers.keys(), vec!["location"]);
        assert_eq!(resp.response_type, ResponseType::Basic);
    }
    for status in [300, 304, 305, 306, 309, 200, 404] {
        assert_eq!(
            Response::redirect("/next".to_string(), status).err(),
            Some(FetchError::InvalidRedirect)
        );
    }
}

#[test]
fn test_body_is_read_once() {
    let mut resp = Response::new(200, "OK".to_string(), Headers::new(), vec![0xff], "u".to_string());
    assert_eq!(resp.text(), Err(FetchError::InvalidBody));
    assert_eq!(resp.bytes(), Err(FetchError::BodyUsed));
    assert_eq!(resp.json(), Err(FetchError::BodyUsed));
    assert_eq!(resp.clone_response().err(), Some(FetchError::BodyUsed));
    let mut resp = Response::new(200, "OK".to_string(), Headers::new(), b"{}".to_vec(), "u".to_string());
    let mut copy = resp.clone_response().unwrap();
    assert_eq!(resp.json(), Ok("{}".to_string()));
    assert_eq!(copy.bytes(), Ok(b"{}".to_vec()));
    assert_eq!(copy.text(), Err(FetchError::BodyUsed));
}

#[test]
fn test_headers_keep_order_and_join_values() {
    let mut headers = Headers::default();
    headers.append("Set-Cookie".to_string(), "a=1".to_string());
    headers.set("ACCEPT".to_string(), "x".to_string());
    headers.append("set-cookie".to_string(), "b=2".to_string());
    headers.append("SET-COOKIE".to_string(), "c=3".to_string());
    assert_eq!(headers.keys(), vec!["set-cookie", "accept"]);
    assert_eq!(headers.values(), vec!["a=1, b=2, c=3", "x"]);
    assert_eq!(
        headers.entries(),
        vec![
            ("set-cookie".to_string(), "a=1, b=2, c=3".to_string()),
            ("accept".to_string(), "x".to_string())
        ]
    );
    headers.set("Set-Cookie".to_string(), "z".to_string());
    assert_eq!(headers.get("set-cookie"), Some("z"));
    assert_eq!(headers.get("missing"), None);
    headers.delete("missing");
    headers.delete("Accept");
    assert_eq!(headers.keys(), vec!["set-cookie"]);
    let copy = headers.clone();
    assert_eq!(copy.entries(), headers.entries());
}

#[test]
fn test_fetch_error_text() {
    assert_eq!(FetchError::NetworkError.to_string(), "Network error");
    assert_eq!(FetchError::InvalidUrl.to_string(), "Invalid URL");
    assert_eq!(FetchError::CorsError.to_string(), "CORS error");
    assert_eq!(FetchError::BodyUsed.to_string(), "Body already used");
    assert_eq!(FetchError::InvalidBody.to_string(), "Invalid body");
    assert_eq!(FetchError::InvalidRedirect.to_string(), "Invalid redirect status");
    assert_eq!(FetchError::Timeout.to_string(), "Request timeout");
    assert_eq!(FetchError::Aborted.to_string(), "Request aborted");
}
