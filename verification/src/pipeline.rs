//! The per-endpoint decision pipeline: gate, upstream URL construction, and
//! the classify-then-rewrite step applied to a fetch outcome. The fetch
//! itself is I/O and happens outside the library; its outcome is handed in
//! as a plain value, so every decision taken on it is verified for every
//! possible outcome.

use vstd::prelude::*;
use crate::config::AppConfig;
use crate::config::AppConfigView;
use crate::content_type::{MediaType, binary_view, is_m3u8_content, is_m3u8_view, parse_content_type, parse_media_type};
use crate::gate::is_authorized;
use crate::rewrite::{rewrite_playlist, rewrite_playlist_spec, route_prefix};
use crate::text::{append_bytes, bytes_clone};
use crate::utf8::{is_utf8, is_utf8_text};

verus! {

/// A per-request failure, surfaced to the client as the matching HTTP
/// status with an empty body.
#[derive(Debug, PartialEq, Eq, Clone, Copy)]
pub enum ProxyError {
    /// Secret mismatch on a gated endpoint.
    Forbidden,
    /// Upstream unreachable or the connection failed.
    BadGateway,
    /// Response body unreadable, or playlist bytes not valid text.
    InternalError,
}

/// What one upstream fetch yielded: the declared content type (the raw
/// header value, where one was present) and the body bytes, or the failure
/// that ended the fetch.
pub enum FetchOutcome {
    Fetched { content_type: Option<Vec<u8>>, body: Vec<u8> },
    ConnectFailed,
    BodyFailed,
}

/// A response to stream back to the client: a content type and the bytes.
pub struct ProxyResponse {
    pub content_type: MediaType,
    pub data: Vec<u8>,
}

/// The manifest path and query `/ace/manifest.m3u8?content_id=`.
pub open spec fn manifest_path_bytes() -> Seq<u8> {
    seq![
        47u8, 97u8, 99u8, 101u8, 47u8, 109u8, 97u8, 110u8, 105u8, 102u8, 101u8, 115u8, 116u8,
        46u8, 109u8, 51u8, 117u8, 56u8, 63u8, 99u8, 111u8, 110u8, 116u8, 101u8, 110u8, 116u8,
        95u8, 105u8, 100u8, 61u8,
    ]
}

fn manifest_path_vec() -> (r: Vec<u8>)
    ensures
        r@ == manifest_path_bytes(),
{
    let v: Vec<u8> = vec![
        47, 97, 99, 101, 47, 109, 97, 110, 105, 102, 101, 115, 116, 46, 109, 51, 117, 56, 63, 99,
        111, 110, 116, 101, 110, 116, 95, 105, 100, 61,
    ];
    proof {
        assert(v@ =~= manifest_path_bytes());
    }
    v
}

/// The path fragment `/hls/`.
pub open spec fn hls_path_bytes() -> Seq<u8> {
    seq![47u8, 104u8, 108u8, 115u8, 47u8]
}

fn hls_path_vec() -> (r: Vec<u8>)
    ensures
        r@ == hls_path_bytes(),
{
    let v: Vec<u8> = vec![47, 104, 108, 115, 47];
    proof {
        assert(v@ =~= hls_path_bytes());
    }
    v
}

/// The upstream manifest URL: the upstream base, the manifest path, and the
/// stream identifier as the query value.
pub open spec fn manifest_url_spec(c: AppConfigView) -> Seq<u8> {
    c.ace_base_url + manifest_path_bytes() + c.ace_stream_id
}

/// Builds the upstream manifest URL.
pub fn manifest_url(config: &AppConfig) -> (r: Vec<u8>)
    ensures
        r@ == manifest_url_spec(config@),
{
    let mut out = bytes_clone(&config.ace_base_url);
    let mid = manifest_path_vec();
    append_bytes(&mut out, &mid);
    append_bytes(&mut out, &config.ace_stream_id);
    out
}

/// The upstream URL of one segment: the upstream base, the segment route
/// prefix, and the requested path suffix.
pub open spec fn segment_url_spec(c: AppConfigView, path: Seq<u8>) -> Seq<u8> {
    c.ace_base_url + route_prefix() + path
}

/// Builds the upstream URL for one requested segment path. The segment
/// endpoint takes no gate: segment paths are reachable only through the
/// rewritten playlist.
pub fn ts_segment_url(config: &AppConfig, path: &Vec<u8>) -> (r: Vec<u8>)
    ensures
        r@ == segment_url_spec(config@, path@),
{
    let mut out = bytes_clone(&config.ace_base_url);
    let pre = crate::rewrite::route_prefix_vec();
    append_bytes(&mut out, &pre);
    append_bytes(&mut out, path);
    out
}

/// The externally reachable stream URL shown on the stream page: the
/// external base, `/hls/`, and the secret.
pub open spec fn stream_url_spec(c: AppConfigView) -> Seq<u8> {
    c.external_base_url + hls_path_bytes() + c.stream_password
}

/// What the stream page endpoint decides: the values the page presents, or
/// denial.
pub enum StreamPageOutcome {
    Page { stream_url: Vec<u8>, stream_id: Vec<u8>, stream_password: Vec<u8> },
    Forbidden,
}

/// The stream page decision: on a token equal to the secret, the page's
/// values — the externally reachable stream URL, the stream identifier and
/// the secret; on any other token, denial. Upstream is never contacted.
pub fn stream_page_decision(token: &Vec<u8>, config: &AppConfig) -> (r: StreamPageOutcome)
    ensures
        token@ == config@.stream_password ==> (r matches StreamPageOutcome::Page {
            stream_url,
            stream_id,
            stream_password,
        } && stream_url@ == stream_url_spec(config@) && stream_id@ == config@.ace_stream_id
            && stream_password@ == config@.stream_password),
        token@ != config@.stream_password ==> r matches StreamPageOutcome::Forbidden,
{
    if !is_authorized(token, &config.stream_password) {
        return StreamPageOutcome::Forbidden;
    }
    let mut stream_url = bytes_clone(&config.external_base_url);
    let mid = hls_path_vec();
    append_bytes(&mut stream_url, &mid);
    append_bytes(&mut stream_url, &config.stream_password);
    StreamPageOutcome::Page {
        stream_url,
        stream_id: bytes_clone(&config.ace_stream_id),
        stream_password: bytes_clone(&config.stream_password),
    }
}

/// The manifest endpoint's gate: a token unequal to the secret is denied
/// before any upstream contact; a matching token yields the upstream
/// manifest URL to fetch.
pub fn hls_gate(token: &Vec<u8>, config: &AppConfig) -> (r: Result<Vec<u8>, ProxyError>)
    ensures
        token@ == config@.stream_password ==> (r matches Ok(u) && u@ == manifest_url_spec(
            config@,
        )),
        token@ != config@.stream_password ==> r == Err::<Vec<u8>, ProxyError>(
            ProxyError::Forbidden,
        ),
{
    if !is_authorized(token, &config.stream_password) {
        return Err(ProxyError::Forbidden);
    }
    Ok(manifest_url(config))
}

/// The manifest endpoint's handling of a fetch outcome: a connection
/// failure is a bad gateway; an unreadable body is an internal error; a
/// fetched body is classified by its declared content type, and a playlist
/// is rewritten — failing as an internal error when it is not valid text —
/// while anything else passes through unchanged under its content type.
pub fn hls_process_response(outcome: FetchOutcome, external_base_url: &Vec<u8>) -> (r: Result<
    ProxyResponse,
    ProxyError,
>)
    ensures
        outcome matches FetchOutcome::ConnectFailed ==> r == Err::<ProxyResponse, ProxyError>(
            ProxyError::BadGateway,
        ),
        outcome matches FetchOutcome::BodyFailed ==> r == Err::<ProxyResponse, ProxyError>(
            ProxyError::InternalError,
        ),
        outcome matches FetchOutcome::Fetched { content_type, body } ==> ({
            let ct = match content_type {
                Some(h) => parse_media_type(h@),
                None => binary_view(),
            };
            if is_m3u8_view(ct) {
                if is_utf8(body@) {
                    r matches Ok(p) && p.content_type@ == ct && p.data@ == rewrite_playlist_spec(
                        body@,
                        external_base_url@,
                    )
                } else {
                    r == Err::<ProxyResponse, ProxyError>(ProxyError::InternalError)
                }
            } else {
                r matches Ok(p) && p.content_type@ == ct && p.data@ == body@
            }
        }),
{
    match outcome {
        FetchOutcome::ConnectFailed => Err(ProxyError::BadGateway),
        FetchOutcome::BodyFailed => Err(ProxyError::InternalError),
        FetchOutcome::Fetched { content_type, body } => {
            let ct = match &content_type {
                Some(h) => parse_content_type(Some(h)),
                None => parse_content_type(None),
            };
            if is_m3u8_content(&ct) {
                if is_utf8_text(&body) {
                    let data = rewrite_playlist(&body, external_base_url);
                    Ok(ProxyResponse { content_type: ct, data })
                } else {
                    Err(ProxyError::InternalError)
                }
            } else {
                Ok(ProxyResponse { content_type: ct, data: body })
            }
        },
    }
}

} // verus!
