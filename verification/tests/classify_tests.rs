use hlsproxy::content_type::{is_m3u8_content, parse_content_type};

fn b(s: &str) -> Vec<u8> {
    s.as_bytes().to_vec()
}

#[test]
fn recognizes_the_three_playlist_types() {
    for value in [
        "application/vnd.apple.mpegurl",
        "audio/mpegurl",
        "application/x-mpegurl",
    ] {
        let v = b(value);
        let ct = parse_content_type(Some(&v));
        assert!(is_m3u8_content(&ct), "{value} should classify as a playlist");
    }
}

#[test]
fn case_and_parameter_variations_still_playlists() {
    for value in [
        "Application/VND.Apple.MPEGURL",
        "AUDIO/MPEGURL",
        "application/x-mpegURL; charset=utf-8",
        " application / vnd.apple.mpegurl ; foo=bar",
    ] {
        let v = b(value);
        let ct = parse_content_type(Some(&v));
        assert!(is_m3u8_content(&ct), "{value} should classify as a playlist");
    }
}

#[test]
fn binary_and_unknown_types_are_not_playlists() {
    for value in ["video/mp2t", "application/octet-stream", "text/plain", "audio/mpeg"] {
        let v = b(value);
        let ct = parse_content_type(Some(&v));
        assert!(!is_m3u8_content(&ct), "{value} should not classify as a playlist");
    }
}

#[test]
fn parse_normalizes_type_and_subtype() {
    let v = b("VIDEO/MP2T");
    let ct = parse_content_type(Some(&v));
    assert_eq!(ct.top, b("video"));
    assert_eq!(ct.sub, b("mp2t"));
    assert_eq!(ct.params, b(""));
}

#[test]
fn parse_keeps_raw_parameter_section() {
    let v = b("video/mp2t; foo=bar");
    let ct = parse_content_type(Some(&v));
    assert_eq!(ct.top, b("video"));
    assert_eq!(ct.sub, b("mp2t"));
    assert_eq!(ct.params, b("; foo=bar"));
}

#[test]
fn absent_header_falls_back_to_binary() {
    let ct = parse_content_type(None);
    assert_eq!(ct.top, b("application"));
    assert_eq!(ct.sub, b("octet-stream"));
    assert_eq!(ct.params, b(""));
}

#[test]
fn malformed_headers_fall_back_to_binary() {
    for value in ["not-a-media-type", "/missing-type", "missing-subtype/", "bad type/sub", "a/b/c"] {
        let v = b(value);
        let ct = parse_content_type(Some(&v));
        assert_eq!(ct.top, b("application"), "{value}");
        assert_eq!(ct.sub, b("octet-stream"), "{value}");
    }
}
