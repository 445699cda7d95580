use manga_downloader::target::{looks_like_jm_domain, looks_like_jm_target, parse_jm_target, JmTarget};

#[test]
fn parses_album_urls() {
    assert_eq!(
        parse_jm_target("https://18comic.vip/album/123456/title"),
        Some(JmTarget::Album(123456))
    );
    assert_eq!(
        parse_jm_target("jmcomic1.me/album/654321"),
        Some(JmTarget::Album(654321))
    );
}

#[test]
fn parses_chapter_urls() {
    assert_eq!(
        parse_jm_target("https://18comic.vip/photo/987654"),
        Some(JmTarget::Chapter(987654))
    );
    assert_eq!(
        parse_jm_target("https://cdn-msp2.jmapiproxy2.cc/media/photos/456789/00001.webp"),
        Some(JmTarget::Chapter(456789))
    );
}

#[test]
fn parses_explicit_jm_ids_without_stealing_plain_numbers() {
    assert_eq!(parse_jm_target("jm:112233"), Some(JmTarget::Album(112233)));
    assert_eq!(parse_jm_target("JM112233"), Some(JmTarget::Album(112233)));
    assert_eq!(parse_jm_target("112233"), None);
}

#[test]
fn detects_jm_domains_without_matching_wn_domains() {
    assert!(looks_like_jm_domain("www.cdnhth.cc"));
    assert!(looks_like_jm_domain("https://18comic.vip/album/1"));
    assert!(!looks_like_jm_domain("www.wn07.ru"));
    assert!(!looks_like_jm_domain("www.wnacg.com"));
}

#[test]
fn explicit_id_with_colon_and_spaces() {
    assert_eq!(parse_jm_target("  Jm:42  "), Some(JmTarget::Album(42)));
    assert_eq!(parse_jm_target("jm:0"), None);
    assert_eq!(parse_jm_target("jm:-5"), None);
    assert_eq!(parse_jm_target("jm:99999999999999999999"), None);
}

#[test]
fn query_ids_and_trailing_numeric_segments() {
    assert_eq!(
        parse_jm_target("https://18comic.vip/view?aid=77"),
        Some(JmTarget::Album(77))
    );
    assert_eq!(
        parse_jm_target("https://18comic.vip/read?chapter_id=88"),
        Some(JmTarget::Chapter(88))
    );
    assert_eq!(
        parse_jm_target("https://18comic.vip/x/555/y"),
        Some(JmTarget::Album(555))
    );
    assert_eq!(parse_jm_target("https://18comic.vip/nothing/here"), None);
    assert_eq!(parse_jm_target("https://www.wnacg.com/album/123"), None);
}

#[test]
fn target_detection_agrees_with_parsing() {
    assert!(looks_like_jm_target("jm:1435054"));
    assert!(looks_like_jm_target("https://18comic.vip/chapter/9"));
    assert!(!looks_like_jm_target(""));
    assert!(!looks_like_jm_target("328415"));
}

#[test]
fn empty_and_blank_domains_are_not_jm() {
    assert!(!looks_like_jm_domain(""));
    assert!(!looks_like_jm_domain("   "));
    assert!(looks_like_jm_domain("  JMCOMIC.ME  "));
}
