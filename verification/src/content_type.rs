//! Content-type classification: parsing of a raw content-type header into
//! a normalized media type, and recognition of the M3U8 playlist types that
//! call for playlist rewriting.

use vstd::prelude::*;
use crate::text::{
    bytes_eq, contains_byte, copy_range, find_first_byte, first_byte, lower, to_lower, trim,
    trim_bounds,
};
use crate::rewrite::SLASH;

verus! {

/// The byte `;`, which begins the parameter section of a media type.
pub const SEMI: u8 = 59;

/// A token byte of a media type: an ASCII letter or digit, or one of the
/// punctuation bytes the token grammar allows.
pub open spec fn is_tchar(b: u8) -> bool {
    (48 <= b && b <= 57) || (65 <= b && b <= 90) || (97 <= b && b <= 122) || b == 33 || (35 <= b
        && b <= 39) || b == 42 || b == 43 || b == 45 || b == 46 || b == 94 || b == 95 || b == 96
        || b == 124 || b == 126
}

/// Every byte of `s` is a token byte.
pub open spec fn all_tchars(s: Seq<u8>) -> bool {
    forall|i: int| 0 <= i < s.len() ==> is_tchar(s[i])
}

/// The bytes of `application`.
pub open spec fn application_bytes() -> Seq<u8> {
    seq![97u8, 112u8, 112u8, 108u8, 105u8, 99u8, 97u8, 116u8, 105u8, 111u8, 110u8]
}

/// The bytes of `application` as a vector.
fn application_vec() -> (r: Vec<u8>)
    ensures
        r@ == application_bytes(),
{
    let v: Vec<u8> = vec![97, 112, 112, 108, 105, 99, 97, 116, 105, 111, 110];
    proof {
        assert(v@ =~= application_bytes());
    }
    v
}

/// The bytes of `octet-stream`.
pub open spec fn octet_stream_bytes() -> Seq<u8> {
    seq![111u8, 99u8, 116u8, 101u8, 116u8, 45u8, 115u8, 116u8, 114u8, 101u8, 97u8, 109u8]
}

/// The bytes of `octet-stream` as a vector.
fn octet_stream_vec() -> (r: Vec<u8>)
    ensures
        r@ == octet_stream_bytes(),
{
    let v: Vec<u8> = vec![111, 99, 116, 101, 116, 45, 115, 116, 114, 101, 97, 109];
    proof {
        assert(v@ =~= octet_stream_bytes());
    }
    v
}

/// The bytes of `vnd.apple.mpegurl`.
pub open spec fn vnd_apple_mpegurl_bytes() -> Seq<u8> {
    seq![118u8, 110u8, 100u8, 46u8, 97u8, 112u8, 112u8, 108u8, 101u8, 46u8, 109u8, 112u8, 101u8, 103u8, 117u8, 114u8, 108u8]
}

/// The bytes of `vnd.apple.mpegurl` as a vector.
fn vnd_apple_mpegurl_vec() -> (r: Vec<u8>)
    ensures
        r@ == vnd_apple_mpegurl_bytes(),
{
    let v: Vec<u8> = vec![118, 110, 100, 46, 97, 112, 112, 108, 101, 46, 109, 112, 101, 103, 117, 114, 108];
    proof {
        assert(v@ =~= vnd_apple_mpegurl_bytes());
    }
    v
}

/// The bytes of `audio`.
pub open spec fn audio_bytes() -> Seq<u8> {
    seq![97u8, 117u8, 100u8, 105u8, 111u8]
}

/// The bytes of `audio` as a vector.
fn audio_vec() -> (r: Vec<u8>)
    ensures
        r@ == audio_bytes(),
{
    let v: Vec<u8> = vec![97, 117, 100, 105, 111];
    proof {
        assert(v@ =~= audio_bytes());
    }
    v
}

/// The bytes of `mpegurl`.
pub open spec fn mpegurl_bytes() -> Seq<u8> {
    seq![109u8, 112u8, 101u8, 103u8, 117u8, 114u8, 108u8]
}

/// The bytes of `mpegurl` as a vector.
fn mpegurl_vec() -> (r: Vec<u8>)
    ensures
        r@ == mpegurl_bytes(),
{
    let v: Vec<u8> = vec![109, 112, 101, 103, 117, 114, 108];
    proof {
        assert(v@ =~= mpegurl_bytes());
    }
    v
}

/// The bytes of `x-mpegurl`.
pub open spec fn x_mpegurl_bytes() -> Seq<u8> {
    seq![120u8, 45u8, 109u8, 112u8, 101u8, 103u8, 117u8, 114u8, 108u8]
}

/// The bytes of `x-mpegurl` as a vector.
fn x_mpegurl_vec() -> (r: Vec<u8>)
    ensures
        r@ == x_mpegurl_bytes(),
{
    let v: Vec<u8> = vec![120, 45, 109, 112, 101, 103, 117, 114, 108];
    proof {
        assert(v@ =~= x_mpegurl_bytes());
    }
    v
}

/// A media type: a normalized (lowercased) type and subtype, with the raw
/// parameter section (from the first `;` on) carried along unchanged.
pub struct MediaType {
    pub top: Vec<u8>,
    pub sub: Vec<u8>,
    pub params: Vec<u8>,
}

/// The mathematical view of a media type.
pub struct MediaTypeView {
    pub top: Seq<u8>,
    pub sub: Seq<u8>,
    pub params: Seq<u8>,
}

impl View for MediaType {
    type V = MediaTypeView;

    open spec fn view(&self) -> MediaTypeView {
        MediaTypeView { top: self.top@, sub: self.sub@, params: self.params@ }
    }
}

/// The fallback media type `application/octet-stream`, used for an absent or
/// malformed content-type header.
pub open spec fn binary_view() -> MediaTypeView {
    MediaTypeView { top: application_bytes(), sub: octet_stream_bytes(), params: Seq::empty() }
}

/// The fallback media type `application/octet-stream`.
pub fn binary_media_type() -> (r: MediaType)
    ensures
        r@ == binary_view(),
{
    MediaType { top: application_vec(), sub: octet_stream_vec(), params: Vec::new() }
}

/// The parse of a raw content-type value: the text before the first `/` is
/// the type, the text from there to the first `;` is the subtype, both
/// whitespace-trimmed and lowercased; the rest is the parameter section.
/// A value without a `/`, or whose type or subtype is empty or holds a
/// non-token byte, parses to the binary fallback.
pub open spec fn parse_media_type(s: Seq<u8>) -> MediaTypeView {
    if !contains_byte(s, SLASH) {
        binary_view()
    } else {
        let sl = first_byte(s, SLASH);
        let raw_top = trim(s.take(sl));
        let rest = s.skip(sl + 1);
        let semi_end = if contains_byte(rest, SEMI) {
            first_byte(rest, SEMI)
        } else {
            rest.len() as int
        };
        let raw_sub = trim(rest.take(semi_end));
        if raw_top.len() > 0 && all_tchars(raw_top) && raw_sub.len() > 0 && all_tchars(raw_sub) {
            MediaTypeView {
                top: lower(raw_top),
                sub: lower(raw_sub),
                params: rest.skip(semi_end),
            }
        } else {
            binary_view()
        }
    }
}

/// Parses the declared content type of an upstream response; an absent
/// header gives the binary fallback.
pub fn parse_content_type(header: Option<&Vec<u8>>) -> (r: MediaType)
    ensures
        match header {
            Some(h) => r@ == parse_media_type(h@),
            None => r@ == binary_view(),
        },
{
    let h = match header {
        Some(h) => h,
        None => {
            return binary_media_type();
        },
    };
    let sl = match find_first_byte(h, SLASH) {
        Some(sl) => sl,
        None => {
            return binary_media_type();
        },
    };
    let hlen = h.len();
    let top_raw = copy_range(h, 0, sl);
    proof {
        assert(top_raw@ =~= h@.take(first_byte(h@, SLASH)));
    }
    let (t0, t1) = trim_bounds(&top_raw);
    let top_trim = copy_range(&top_raw, t0, t1);
    let rest = copy_range(h, sl + 1, hlen);
    proof {
        assert(rest@ =~= h@.skip(first_byte(h@, SLASH) + 1));
    }
    let semi_end = match find_first_byte(&rest, SEMI) {
        Some(p) => p,
        None => rest.len(),
    };
    proof {
        assert(rest@.skip(rest@.len() as int) =~= Seq::<u8>::empty());
    }
    let sub_raw = copy_range(&rest, 0, semi_end);
    proof {
        assert(sub_raw@ =~= rest@.take(semi_end as int));
    }
    let (s0, s1) = trim_bounds(&sub_raw);
    let sub_trim = copy_range(&sub_raw, s0, s1);
    let params = copy_range(&rest, semi_end, rest.len());
    proof {
        assert(params@ =~= rest@.skip(semi_end as int));
    }
    if top_trim.len() > 0 && sub_trim.len() > 0 && all_tchars_check(&top_trim) && all_tchars_check(
        &sub_trim,
    ) {
        MediaType { top: to_lower(&top_trim), sub: to_lower(&sub_trim), params }
    } else {
        binary_media_type()
    }
}

/// The recognized playlist media types, exactly `application/vnd.apple.mpegurl`,
/// `audio/mpegurl` and `application/x-mpegurl`.
pub open spec fn is_m3u8_view(m: MediaTypeView) -> bool {
    (m.top == application_bytes() && m.sub == vnd_apple_mpegurl_bytes()) || (m.top == audio_bytes()
        && m.sub == mpegurl_bytes()) || (m.top == application_bytes() && m.sub
        == x_mpegurl_bytes())
}

/// Whether the content type is one of the known M3U8 playlist types.
pub fn is_m3u8_content(content_type: &MediaType) -> (r: bool)
    ensures
        r == is_m3u8_view(content_type@),
{
    (bytes_eq(&content_type.top, &application_vec()) && bytes_eq(
        &content_type.sub,
        &vnd_apple_mpegurl_vec(),
    )) || (bytes_eq(&content_type.top, &audio_vec()) && bytes_eq(
        &content_type.sub,
        &mpegurl_vec(),
    )) || (bytes_eq(&content_type.top, &application_vec()) && bytes_eq(
        &content_type.sub,
        &x_mpegurl_vec(),
    ))
}

/// Checks that every byte of `v` is a token byte.
fn all_tchars_check(v: &Vec<u8>) -> (r: bool)
    ensures
        r == all_tchars(v@),
{
    let mut i: usize = 0;
    while i < v.len()
        invariant
            i <= v@.len(),
            forall|j: int| 0 <= j < i ==> is_tchar(v@[j]),
        decreases v@.len() - i,
    {
        let b = v[i];
        if !((48 <= b && b <= 57) || (65 <= b && b <= 90) || (97 <= b && b <= 122) || b == 33 || (35
            <= b && b <= 39) || b == 42 || b == 43 || b == 45 || b == 46 || b == 94 || b == 95
            || b == 96 || b == 124 || b == 126) {
            return false;
        }
        i += 1;
    }
    true
}

} // verus!
