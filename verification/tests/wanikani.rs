use kanji_kana::wanikani::{
    cache_file_names, cache_key_for_path, cache_meta_text, cache_validators, classify_status,
    http_error, is_header_value, is_success, missing_cached_body, ApiConfig, ApiError,
    StatusClass,
};

#[test]
fn config_for_wanikani() {
    let c = ApiConfig::new("secret");
    assert_eq!(c.api_key, "secret");
    assert_eq!(c.base_url, "https://api.wanikani.com/v2");
}

#[test]
fn url_for_relative_and_absolute_endpoints() {
    let c = ApiConfig::new("k");
    assert_eq!(c.url_for("/subjects?types=kanji"), "https://api.wanikani.com/v2/subjects?types=kanji");
    assert_eq!(c.url_for("https://example.org/x"), "https://example.org/x");
    assert_eq!(c.url_for("httpbin"), "httpbin");
    assert_eq!(c.url_for(""), "https://api.wanikani.com/v2");
    assert_eq!(c.url_for("htt"), "https://api.wanikani.com/v2htt");
}

#[test]
fn bearer_and_authorization() {
    let c = ApiConfig::new("abc-123");
    assert_eq!(c.bearer(), "Bearer abc-123");
    match c.authorization() {
        Ok(v) => assert_eq!(v, "Bearer abc-123"),
        Err(_) => panic!("expected a valid header"),
    }
    let bad = ApiConfig::new("a\nb");
    match bad.authorization() {
        Err(ApiError::Other(m)) => assert_eq!(m, "failed to parse header value"),
        _ => panic!("expected the header to be refused"),
    }
}

#[test]
fn header_values() {
    assert!(is_header_value("abc"));
    assert!(is_header_value("a\tb"));
    assert!(is_header_value(""));
    assert!(is_header_value("é"));
    assert!(!is_header_value("a\nb"));
    assert!(!is_header_value("\u{7f}"));
    assert!(!is_header_value("\r"));
}

#[test]
fn cache_key_is_sha256_hex() {
    assert_eq!(
        cache_key_for_path("abc"),
        "ba7816bf8f01cfea414140de5dae2223b00361a396177a9cb410ff61f20015ad"
    );
    assert_eq!(
        cache_key_for_path(""),
        "e3b0c44298fc1c149afbf4c8996fb92427ae41e4649b934ca495991b7852b855"
    );
    let k = cache_key_for_path("https://api.wanikani.com/v2/subjects?types=kanji");
    assert_eq!(k.len(), 64);
    assert!(k.chars().all(|c| c.is_ascii_digit() || ('a'..='f').contains(&c)));
}

#[test]
fn cache_file_names_for_a_url() {
    let (body, meta) = cache_file_names("abc");
    assert_eq!(body, "ba7816bf8f01cfea414140de5dae2223b00361a396177a9cb410ff61f20015ad.json");
    assert_eq!(meta, "ba7816bf8f01cfea414140de5dae2223b00361a396177a9cb410ff61f20015ad.meta");
}

#[test]
fn status_classes() {
    assert_eq!(classify_status(304), StatusClass::NotModified);
    assert_eq!(classify_status(200), StatusClass::Success);
    assert_eq!(classify_status(204), StatusClass::Success);
    assert_eq!(classify_status(299), StatusClass::Success);
    assert_eq!(classify_status(199), StatusClass::Failure);
    assert_eq!(classify_status(300), StatusClass::Failure);
    assert_eq!(classify_status(404), StatusClass::Failure);
    assert!(is_success(201));
    assert!(!is_success(500));
}

#[test]
fn error_messages() {
    match http_error("404 Not Found", "{}") {
        ApiError::Other(m) => assert_eq!(m, "HTTP 404 Not Found: {}"),
        _ => panic!(),
    }
    match missing_cached_body() {
        ApiError::Other(m) => assert_eq!(m, "Server returned 304 but no cached body present"),
        _ => panic!(),
    }
}

#[test]
fn meta_text_layout() {
    assert_eq!(
        cache_meta_text(Some("\"abc\""), Some("Wed, 21 Oct 2015 07:28:00 GMT")),
        "ETag: \"abc\"\nLast-Modified: Wed, 21 Oct 2015 07:28:00 GMT\n"
    );
    assert_eq!(cache_meta_text(None, Some("x")), "Last-Modified: x\n");
    assert_eq!(cache_meta_text(Some(""), None), "ETag: \n");
    assert_eq!(cache_meta_text(None, None), "");
}

#[test]
fn meta_round_trip() {
    let cases = [
        (Some("W/\"1\""), Some("Mon, 01 Jan 2024 00:00:00 GMT")),
        (None, Some("d")),
        (Some("e\tf"), None),
        (None, None),
        (Some(""), Some("")),
    ];
    for (e, d) in cases {
        let text = cache_meta_text(e, d);
        let v = cache_validators(&text);
        assert_eq!(v.etag.as_deref(), e);
        assert_eq!(v.last_modified.as_deref(), d);
    }
}

#[test]
fn validators_from_stored_lines() {
    let v = cache_validators("ETag: a\r\nLast-Modified: b\r\nOther: c");
    assert_eq!(v.etag.as_deref(), Some("a"));
    assert_eq!(v.last_modified.as_deref(), Some("b"));
    // the last line of a kind counts
    let v = cache_validators("ETag: 1\nETag: 2\n");
    assert_eq!(v.etag.as_deref(), Some("2"));
    assert_eq!(v.last_modified, None);
    // an invalid value is sent empty
    let v = cache_validators("ETag: \u{7f}\n");
    assert_eq!(v.etag.as_deref(), Some(""));
    // a last line keeps its carriage return, which no header may hold
    let v = cache_validators("Last-Modified: x\r");
    assert_eq!(v.last_modified.as_deref(), Some(""));
    // prefixes must match exactly
    let v = cache_validators("etag: x\nETag:y\n ETag: z");
    assert_eq!(v.etag, None);
    let v = cache_validators("");
    assert_eq!(v.etag, None);
    assert_eq!(v.last_modified, None);
}

use kanji_kana::json::Json;
use kanji_kana::wanikani::{read_body, read_json_body};

#[test]
fn success_body_is_read_as_json() {
    let text = r#"{"data": [{"id": 1, "n": -2, "f": 1.5, "s": "一", "b": true, "z": null}]}"#;
    let v = read_body(200, "200 OK", text).unwrap();
    let members = match v {
        Json::Object(m) => m,
        other => panic!("{:?}", other),
    };
    assert_eq!(members.len(), 1);
    assert_eq!(members[0].0, "data");
    let entry = match &members[0].1 {
        Json::Array(a) => match &a[0] {
            Json::Object(m) => m,
            other => panic!("{:?}", other),
        },
        other => panic!("{:?}", other),
    };
    let get = |k: &str| &entry.iter().find(|(key, _)| key == k).unwrap().1;
    assert!(matches!(get("id"), Json::Number(Some(1))));
    assert!(matches!(get("n"), Json::Number(None)));
    assert!(matches!(get("f"), Json::Number(None)));
    assert!(matches!(get("s"), Json::Str(s) if s == "一"));
    assert!(matches!(get("b"), Json::Bool(true)));
    assert!(matches!(get("z"), Json::Null));
}

#[test]
fn success_body_that_is_no_json() {
    let expected = serde_json::from_str::<serde_json::Value>("not json").unwrap_err().to_string();
    match read_body(201, "201 Created", "not json") {
        Err(ApiError::InvalidJson(m)) => assert_eq!(m, expected),
        other => panic!("{:?}", other),
    }
    match read_json_body("") {
        Err(ApiError::InvalidJson(m)) => assert!(!m.is_empty()),
        other => panic!("{:?}", other),
    }
}

#[test]
fn failure_body_gives_http_error() {
    match read_body(404, "404 Not Found", "{\"error\":\"nope\"}") {
        Err(ApiError::Other(m)) => assert_eq!(m, "HTTP 404 Not Found: {\"error\":\"nope\"}"),
        other => panic!("{:?}", other),
    }
    // a 304 outside the cached GET is no success either
    assert!(matches!(read_body(304, "304 Not Modified", ""), Err(ApiError::Other(_))));
}

#[test]
fn cached_body_is_read_as_json() {
    assert!(matches!(read_json_body("[1, 2]"), Ok(Json::Array(a)) if a.len() == 2));
    assert!(matches!(read_json_body("\"x\""), Ok(Json::Str(s)) if s == "x"));
}
