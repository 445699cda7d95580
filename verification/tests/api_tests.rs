use manga_downloader::api::{
    build_request, default_api_domain, desktop_user_agent, id_query, open_envelope,
    parse_scramble_id, scramble_query, status_is_ok, ApiEnvelope, ApiError, ApiPath,
};

#[test]
fn endpoints_and_secrets() {
    assert_eq!(ApiPath::GetComic.as_str(), "/album");
    assert_eq!(ApiPath::GetChapter.as_str(), "/chapter");
    assert_eq!(ApiPath::GetScrambleId.as_str(), "/chapter_view_template");
    assert_eq!(ApiPath::GetComic.token_secret(), "18comicAPP");
    assert_eq!(ApiPath::GetChapter.token_secret(), "18comicAPP");
    assert_eq!(ApiPath::GetScrambleId.token_secret(), "18comicAPPContent");
    assert_eq!(default_api_domain(), "www.cdnhth.cc");
    assert!(desktop_user_agent().starts_with("Mozilla/5.0"));
}

#[test]
fn builds_request_headers() {
    let req = build_request("www.cdnhth.cc", ApiPath::GetComic, 1700000000);
    assert_eq!(req.url, "https://www.cdnhth.cc/album");
    assert_eq!(req.token, "1c6fa345eea2e10d5a30880ec2a7e0b3");
    assert_eq!(req.token_param, "1700000000,2.0.13");
    assert_eq!(req.user_agent, desktop_user_agent());
}

#[test]
fn builds_queries() {
    assert_eq!(id_query(-3), vec![("id".to_string(), "-3".to_string())]);
    let q = scramble_query(123, 45);
    let expected: Vec<(String, String)> = [
        ("id", "123"),
        ("v", "45"),
        ("mode", "vertical"),
        ("page", "0"),
        ("app_img_shunt", "1"),
        ("express", "off"),
    ]
    .iter()
    .map(|(k, v)| (k.to_string(), v.to_string()))
    .collect();
    assert_eq!(q, expected);
}

#[test]
fn reads_scramble_ids() {
    assert_eq!(parse_scramble_id("<script>var scramble_id = 220981;</script>"), 220981);
    assert_eq!(parse_scramble_id("var scramble_id = -5; x"), -5);
    assert_eq!(parse_scramble_id("nothing here"), 220980);
    assert_eq!(parse_scramble_id("var scramble_id = abc;"), 220980);
    assert_eq!(parse_scramble_id("var scramble_id = 12"), 12);
    assert_eq!(parse_scramble_id("var scramble_id = 7var scramble_id = 9;"), 7);
    assert_eq!(parse_scramble_id("var scramble_id = "), 220980);
}

#[test]
fn checks_statuses() {
    assert!(status_is_ok(200));
    assert!(!status_is_ok(404));
}

#[test]
fn opens_envelopes() {
    let err = open_envelope(1, &ApiEnvelope { code: 401, data: None, error_msg: "nope".to_string() });
    match err {
        Err(ApiError::Code { code, error_msg }) => {
            assert_eq!(code, 401);
            assert_eq!(error_msg, "nope");
        }
        _ => panic!("expected a code error"),
    }
    let err = open_envelope(1, &ApiEnvelope { code: 200, data: None, error_msg: String::new() });
    assert!(matches!(err, Err(ApiError::DataNotString)));
    let err = open_envelope(1, &ApiEnvelope { code: 200, data: Some("%%".to_string()), error_msg: String::new() });
    assert!(matches!(err, Err(ApiError::Decrypt(_))));
}

#[test]
fn stated_scramble_id_is_read_back() {
    for n in [0i64, 220981, -3, i64::MAX] {
        let body = format!("<html>var x = 1;var scramble_id = {n};\nvar y = 2;</html>");
        assert_eq!(parse_scramble_id(&body), n);
    }
}
