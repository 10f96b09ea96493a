use video_gateway::config::parse_bool_env;
use video_gateway::video::{ends_with, is_video_key};

#[test]
fn upper_case_extension_is_video() {
    assert!(is_video_key("clips/a.MP4"));
}

#[test]
fn text_file_is_not_video() {
    assert!(!is_video_key("clips/readme.txt"));
}

#[test]
fn every_extension_recognised() {
    for k in ["a.mp4", "a.mov", "a.avi", "a.mkv", "a.webm", "A.WebM", "dir/b.MoV"] {
        assert!(is_video_key(k), "{k}");
    }
    for k in ["a.mp4.txt", "mp4", "a.mp3", "", "folder/", "a.webmx"] {
        assert!(!is_video_key(k), "{k}");
    }
}

#[test]
fn suffix_check() {
    assert!(ends_with("abc", "bc"));
    assert!(ends_with("abc", ""));
    assert!(!ends_with("bc", "abc"));
    assert!(!ends_with("abd", "bc"));
}

#[test]
fn bool_settings() {
    for v in ["1", "true", "TRUE", "yes", "Yes", "on", "ON"] {
        assert!(parse_bool_env(Some(v.to_string())), "{v}");
    }
    for v in ["0", "false", "no", "off", "", " true", "y"] {
        assert!(!parse_bool_env(Some(v.to_string())), "{v}");
    }
    assert!(!parse_bool_env(None));
}
