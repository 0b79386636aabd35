use hlsproxy::utf8::is_utf8_text;

#[test]
fn plain_ascii_and_empty_are_text() {
    assert!(is_utf8_text(&Vec::new()));
    assert!(is_utf8_text(&b"#EXTM3U\nace/c/seg0.ts".to_vec()));
}

#[test]
fn multibyte_sequences_are_text() {
    for s in ["héllo", "śtream", "日本語", "emoji 😀 works", "\u{10FFFF}"] {
        assert!(is_utf8_text(&s.as_bytes().to_vec()), "{s}");
    }
}

#[test]
fn malformed_sequences_are_rejected() {
    let cases: Vec<Vec<u8>> = vec![
        vec![0xFF],
        vec![0xFE, 0x41],
        vec![0xC0, 0x80],
        vec![0xC1, 0xBF],
        vec![0xC2],
        vec![0xC2, 0x41],
        vec![0xE0, 0x80, 0x80],
        vec![0xED, 0xA0, 0x80],
        vec![0xE2, 0x82],
        vec![0xF0, 0x80, 0x80, 0x80],
        vec![0xF4, 0x90, 0x80, 0x80],
        vec![0xF5, 0x80, 0x80, 0x80],
        vec![0x41, 0x80],
    ];
    for c in cases {
        assert!(!is_utf8_text(&c), "{c:?}");
    }
}

#[test]
fn verdict_agrees_with_the_standard_decoder() {
    let mut cases: Vec<Vec<u8>> = vec![
        b"plain".to_vec(),
        "mixé".as_bytes().to_vec(),
        vec![0xE0, 0xA0, 0x80],
        vec![0xED, 0x9F, 0xBF],
        vec![0xEE, 0x80, 0x80],
        vec![0xF0, 0x90, 0x80, 0x80],
        vec![0xF4, 0x8F, 0xBF, 0xBF],
        vec![0xC2, 0x80],
        vec![0xDF, 0xBF],
    ];
    for hi in 0x80..=0xFFu16 {
        cases.push(vec![hi as u8, 0x80]);
        cases.push(vec![0x61, hi as u8]);
    }
    for c in cases {
        assert_eq!(
            is_utf8_text(&c),
            std::str::from_utf8(&c).is_ok(),
            "disagreement on {c:?}"
        );
    }
}
