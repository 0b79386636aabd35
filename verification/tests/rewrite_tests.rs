use hlsproxy::rewrite::{rewrite_m3u8_line, rewrite_playlist, split_into_lines};

fn b(s: &str) -> Vec<u8> {
    s.as_bytes().to_vec()
}

const BASE: &str = "https://ext.example";

#[test]
fn non_candidate_lines_unchanged() {
    for line in [
        "#EXTINF:10,",
        "#EXT-X-ENDLIST",
        "",
        "   ",
        "no_suffix_here",
        "#comment/ace/c/x.ts",
        "ends.with.mp4",
        "almost.ts.txt",
    ] {
        assert_eq!(rewrite_m3u8_line(&b(line), &b(BASE)), b(line));
    }
}

#[test]
fn marker_line_rewritten() {
    assert_eq!(
        rewrite_m3u8_line(&b("ace/c/seg1.ts"), &b(BASE)),
        b("https://ext.example/ace/c/seg1.ts")
    );
    assert_eq!(
        rewrite_m3u8_line(&b("http://origin.host/ace/c/seg1.ts"), &b(BASE)),
        b("https://ext.example/ace/c/seg1.ts")
    );
}

#[test]
fn marker_rule_uses_first_occurrence() {
    assert_eq!(
        rewrite_m3u8_line(&b("xace/c/nested/ace/c/deep.ts"), &b(BASE)),
        b("https://ext.example/ace/c/nested/ace/c/deep.ts")
    );
}

#[test]
fn slash_fallback_takes_filename() {
    assert_eq!(
        rewrite_m3u8_line(&b("/some/path/seg2.ts"), &b(BASE)),
        b("https://ext.example/ace/c/seg2.ts")
    );
}

#[test]
fn bare_filename_without_slash_unchanged() {
    assert_eq!(rewrite_m3u8_line(&b("seg3.ts"), &b(BASE)), b("seg3.ts"));
}

#[test]
fn surrounding_whitespace_kept_after_marker() {
    assert_eq!(
        rewrite_m3u8_line(&b("  ace/c/pad.ts  "), &b(BASE)),
        b("https://ext.example/ace/c/pad.ts  ")
    );
}

#[test]
fn playlist_rewrite_keeps_tags_verbatim() {
    let input = b("#EXTINF:10,\nace/c/seg0.ts\n#EXT-X-ENDLIST");
    let expected = b("#EXTINF:10,\nhttps://ext.example/ace/c/seg0.ts\n#EXT-X-ENDLIST");
    assert_eq!(rewrite_playlist(&input, &b(BASE)), expected);
}

#[test]
fn empty_playlist_stays_empty() {
    assert_eq!(rewrite_playlist(&b(""), &b(BASE)), b(""));
}

#[test]
fn playlist_line_count_preserved() {
    let input = b("#EXTM3U\n#EXTINF:10,\nace/c/seg0.ts\n#EXTINF:10,\n/p/seg1.ts\n#EXT-X-ENDLIST");
    let output = rewrite_playlist(&input, &b(BASE));
    let count_in = split_into_lines(&input).len();
    let count_out = split_into_lines(&output).len();
    assert_eq!(count_in, 6);
    assert_eq!(count_out, count_in);
}

#[test]
fn trailing_empty_line_collapses_on_rejoin() {
    // A text whose final line is empty loses exactly that empty line when
    // the rewritten lines are rejoined with single line feeds.
    let output = rewrite_playlist(&b("a\n\n"), &b(BASE));
    assert_eq!(output, b("a\n"));
    assert_eq!(split_into_lines(&b("a\n\n")).len(), 2);
    assert_eq!(split_into_lines(&output).len(), 1);
}

#[test]
fn splitting_mirrors_line_rules() {
    let pieces = split_into_lines(&b("a\r\nb\nc"));
    assert_eq!(pieces, vec![b("a"), b("b"), b("c")]);
    let pieces = split_into_lines(&b("a\nb\n"));
    assert_eq!(pieces, vec![b("a"), b("b")]);
    let pieces = split_into_lines(&b("\n"));
    assert_eq!(pieces, vec![b("")]);
    let pieces = split_into_lines(&b(""));
    assert!(pieces.is_empty());
    let pieces = split_into_lines(&b("a\rb"));
    assert_eq!(pieces, vec![b("a\rb")]);
}

#[test]
fn crlf_playlist_joined_with_bare_line_feeds() {
    let input = b("#EXTM3U\r\nace/c/seg0.ts\r\n#EXT-X-ENDLIST\r\n");
    let expected = b("#EXTM3U\nhttps://ext.example/ace/c/seg0.ts\n#EXT-X-ENDLIST");
    assert_eq!(rewrite_playlist(&input, &b(BASE)), expected);
}
