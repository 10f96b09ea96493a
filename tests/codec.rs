use video_gateway::keycodec::{check_escapes, decode_key, encode_key};

#[test]
fn encode_escapes_slash_and_space() {
    assert_eq!(encode_key("folder/movie.mp4"), "folder%2Fmovie.mp4");
    assert_eq!(encode_key("a b~c-d_e.f"), "a%20b~c-d_e.f");
}

#[test]
fn encode_escapes_multibyte_as_upper_hex() {
    assert_eq!(encode_key("é"), "%C3%A9");
}

#[test]
fn decode_reverses_escape() {
    assert_eq!(decode_key("folder%2Fmovie.mp4"), Some("folder/movie.mp4".to_string()));
    assert_eq!(decode_key("%c3%a9"), Some("é".to_string()));
    assert_eq!(decode_key("plain.mp4"), Some("plain.mp4".to_string()));
}

#[test]
fn decode_rejects_malformed_escapes() {
    assert_eq!(decode_key("%zz"), None);
    assert_eq!(decode_key("movie%2"), None);
    assert_eq!(decode_key("%"), None);
    assert_eq!(decode_key("a%4zb"), None);
}

#[test]
fn decode_rejects_non_utf8_result() {
    assert_eq!(decode_key("%FF"), None);
}

#[test]
fn round_trip_on_assorted_keys() {
    for k in ["", "folder/movie.mp4", "vidéos/été 2024/a+b&c.MKV", "100%/x?y=z#w", "日本/動画.webm"] {
        let enc = encode_key(k);
        assert_eq!(decode_key(&enc), Some(k.to_string()));
    }
}

#[test]
fn escape_check() {
    assert!(check_escapes(b"a%2Fb"));
    assert!(check_escapes(b""));
    assert!(!check_escapes(b"a%2"));
    assert!(!check_escapes(b"%g0"));
}
