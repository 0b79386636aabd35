use hlsproxy::config::{AppConfig, ConfigError};
use hlsproxy::gate::is_authorized;
use hlsproxy::pipeline::{
    hls_gate, hls_process_response, manifest_url, stream_page_decision, ts_segment_url,
    FetchOutcome, ProxyError, StreamPageOutcome,
};

fn b(s: &str) -> Vec<u8> {
    s.as_bytes().to_vec()
}

fn config() -> AppConfig {
    AppConfig {
        ace_base_url: b("http://127.0.0.1:6878"),
        external_base_url: b("https://ext.example"),
        ace_stream_id: b("deadbeef"),
        stream_password: b("abc123"),
    }
}

#[test]
fn gate_requires_byte_exact_match() {
    assert!(is_authorized(&b("abc123"), &b("abc123")));
    assert!(!is_authorized(&b("abc124"), &b("abc123")));
    assert!(!is_authorized(&b("Abc123"), &b("abc123")));
    assert!(!is_authorized(&b("abc123 "), &b("abc123")));
    assert!(!is_authorized(&b("abc12"), &b("abc123")));
    assert!(!is_authorized(&b(""), &b("abc123")));
}

#[test]
fn stream_page_exposes_stream_url_on_match() {
    match stream_page_decision(&b("abc123"), &config()) {
        StreamPageOutcome::Page { stream_url, stream_id, stream_password } => {
            assert_eq!(stream_url, b("https://ext.example/hls/abc123"));
            assert_eq!(stream_id, b("deadbeef"));
            assert_eq!(stream_password, b("abc123"));
        }
        StreamPageOutcome::Forbidden => panic!("expected the page"),
    }
}

#[test]
fn stream_page_denies_wrong_secret_without_fetch_material() {
    match stream_page_decision(&b("wrong"), &config()) {
        StreamPageOutcome::Forbidden => {}
        StreamPageOutcome::Page { .. } => panic!("expected denial"),
    }
}

#[test]
fn manifest_gate_yields_upstream_url_only_on_match() {
    let url = hls_gate(&b("abc123"), &config()).expect("authorized");
    assert_eq!(
        url,
        b("http://127.0.0.1:6878/ace/manifest.m3u8?content_id=deadbeef")
    );
    assert_eq!(hls_gate(&b("wrong"), &config()), Err(ProxyError::Forbidden));
}

#[test]
fn manifest_url_is_exact() {
    assert_eq!(
        manifest_url(&config()),
        b("http://127.0.0.1:6878/ace/manifest.m3u8?content_id=deadbeef")
    );
}

#[test]
fn segment_url_is_exact() {
    assert_eq!(
        ts_segment_url(&config(), &b("seg0.ts")),
        b("http://127.0.0.1:6878/ace/c/seg0.ts")
    );
}

#[test]
fn playlist_response_rewritten_with_tags_verbatim() {
    let outcome = FetchOutcome::Fetched {
        content_type: Some(b("application/vnd.apple.mpegurl")),
        body: b("#EXTINF:10,\nace/c/seg0.ts\n#EXT-X-ENDLIST"),
    };
    let resp = hls_process_response(outcome, &b("https://ext.example")).expect("playlist");
    assert_eq!(resp.content_type.top, b("application"));
    assert_eq!(resp.content_type.sub, b("vnd.apple.mpegurl"));
    assert_eq!(
        resp.data,
        b("#EXTINF:10,\nhttps://ext.example/ace/c/seg0.ts\n#EXT-X-ENDLIST")
    );
}

#[test]
fn non_playlist_response_passes_through() {
    let body: Vec<u8> = vec![0, 159, 146, 150, 255];
    let outcome = FetchOutcome::Fetched {
        content_type: Some(b("video/mp2t")),
        body: body.clone(),
    };
    let resp = hls_process_response(outcome, &b("https://ext.example")).expect("passthrough");
    assert_eq!(resp.content_type.top, b("video"));
    assert_eq!(resp.content_type.sub, b("mp2t"));
    assert_eq!(resp.data, body);
}

#[test]
fn connect_failure_is_bad_gateway_with_no_body() {
    let r = hls_process_response(FetchOutcome::ConnectFailed, &b("https://ext.example"));
    assert_eq!(r.err(), Some(ProxyError::BadGateway));
}

#[test]
fn body_failure_is_internal_error() {
    let r = hls_process_response(FetchOutcome::BodyFailed, &b("https://ext.example"));
    assert_eq!(r.err(), Some(ProxyError::InternalError));
}

#[test]
fn invalid_text_playlist_is_internal_error() {
    let outcome = FetchOutcome::Fetched {
        content_type: Some(b("audio/mpegurl")),
        body: vec![0xFF, 0xFE, 0x41],
    };
    let r = hls_process_response(outcome, &b("https://ext.example"));
    assert_eq!(r.err(), Some(ProxyError::InternalError));
}

#[test]
fn config_assembles_from_all_four_settings() {
    let c = AppConfig::from_figment(
        Some(b("http://up")),
        Some(b("https://ext")),
        Some(b("id")),
        Some(b("pw")),
    )
    .expect("complete configuration");
    assert_eq!(c.ace_base_url, b("http://up"));
    assert_eq!(c.external_base_url, b("https://ext"));
    assert_eq!(c.ace_stream_id, b("id"));
    assert_eq!(c.stream_password, b("pw"));
}

#[test]
fn config_reports_first_missing_setting() {
    let r = AppConfig::from_figment(None, Some(b("e")), Some(b("i")), Some(b("p")));
    assert_eq!(r.err(), Some(ConfigError::MissingAceBaseUrl));
    let r = AppConfig::from_figment(Some(b("a")), None, Some(b("i")), Some(b("p")));
    assert_eq!(r.err(), Some(ConfigError::MissingExternalBaseUrl));
    let r = AppConfig::from_figment(Some(b("a")), Some(b("e")), None, Some(b("p")));
    assert_eq!(r.err(), Some(ConfigError::MissingAceStreamId));
    let r = AppConfig::from_figment(Some(b("a")), Some(b("e")), Some(b("i")), None);
    assert_eq!(r.err(), Some(ConfigError::MissingStreamPassword));
    let r = AppConfig::from_figment(None, None, None, None);
    assert_eq!(r.err(), Some(ConfigError::MissingAceBaseUrl));
}
