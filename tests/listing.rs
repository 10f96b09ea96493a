use video_gateway::error::GatewayError;
use video_gateway::listing::{
    build_listing, collect_folders, key_less, list_request, list_videos, BackendListing, ListQuery,
    RawObject,
};

fn obj(key: &str) -> RawObject {
    RawObject { key: Some(key.to_string()), size: Some(10), last_modified: None }
}

fn query(page: Option<usize>, page_size: Option<usize>) -> ListQuery {
    ListQuery { page, page_size, prefix: None }
}

#[test]
fn sorts_backend_order() {
    let b = BackendListing { objects: vec![obj("b.mp4"), obj("a.mp4")], common_prefixes: vec![] };
    let r = build_listing(&query(None, None), &b);
    let keys: Vec<&str> = r.videos.iter().map(|v| v.key.as_str()).collect();
    assert_eq!(keys, vec!["a.mp4", "b.mp4"]);
}

#[test]
fn twenty_videos_two_pages() {
    let objects: Vec<RawObject> = (0..20).rev().map(|i| obj(&format!("v{:02}.mp4", i))).collect();
    let b = BackendListing { objects, common_prefixes: vec![] };
    let p1 = build_listing(&query(Some(1), Some(18)), &b);
    assert_eq!(p1.videos.len(), 18);
    assert_eq!(p1.videos[0].key, "v00.mp4");
    assert_eq!(p1.pagination.total_pages, 2);
    assert_eq!(p1.pagination.total_videos, 20);
    assert!(p1.pagination.has_next_page);
    assert!(!p1.pagination.has_prev_page);
    let p2 = build_listing(&query(Some(2), Some(18)), &b);
    assert_eq!(p2.videos.len(), 2);
    assert_eq!(p2.videos[0].key, "v18.mp4");
    assert_eq!(p2.videos[1].key, "v19.mp4");
    assert!(!p2.pagination.has_next_page);
    assert!(p2.pagination.has_prev_page);
    let p3 = build_listing(&query(Some(3), None), &b);
    assert!(p3.videos.is_empty());
    assert!(!p3.pagination.has_next_page);
}

#[test]
fn entries_are_filtered_and_filled() {
    let objects = vec![
        RawObject { key: Some("clips/a.MP4".to_string()), size: None, last_modified: Some("t".to_string()) },
        RawObject { key: Some("clips/readme.txt".to_string()), size: Some(3), last_modified: None },
        RawObject { key: None, size: Some(3), last_modified: None },
    ];
    let b = BackendListing { objects, common_prefixes: vec![Some("clips/sub/".to_string()), None] };
    let q = ListQuery { page: None, page_size: Some(0), prefix: Some("clips/".to_string()) };
    let r = build_listing(&q, &b);
    assert_eq!(r.prefix, "clips/");
    assert_eq!(r.folders, vec!["clips/sub/".to_string()]);
    assert_eq!(r.videos.len(), 1);
    let v = &r.videos[0];
    assert_eq!(v.key, "clips/a.MP4");
    assert_eq!(v.size, 0);
    assert_eq!(v.last_modified.as_deref(), Some("t"));
    assert_eq!(v.stream_url, "/api/videos/stream/clips%2Fa.MP4");
    assert_eq!(r.pagination.page, 1);
    assert_eq!(r.pagination.page_size, 18);
}

#[test]
fn empty_bucket_is_not_an_error() {
    let b = BackendListing { objects: vec![], common_prefixes: vec![] };
    let r = list_videos(&query(None, None), Some(b)).unwrap();
    assert!(r.videos.is_empty());
    assert_eq!(r.pagination.total_pages, 0);
    assert_eq!(r.pagination.total_videos, 0);
    assert!(!r.pagination.has_next_page);
}

#[test]
fn backend_failure_is_unavailable() {
    let r = list_videos(&query(None, None), None);
    assert_eq!(r.unwrap_err(), GatewayError::BackendUnavailable);
    assert_eq!(GatewayError::BackendUnavailable.status_code(), 500);
}

#[test]
fn request_for_backend() {
    let r = list_request(&query(None, None));
    assert_eq!(r.prefix, "");
    assert_eq!(r.delimiter, "/");
    assert_eq!(r.max_keys, 1000);
    let q = ListQuery { page: None, page_size: None, prefix: Some("a/".to_string()) };
    assert_eq!(list_request(&q).prefix, "a/");
}

#[test]
fn folders_keep_backend_order() {
    let f = collect_folders(&vec![Some("z/".to_string()), None, Some("a/".to_string())]);
    assert_eq!(f, vec!["z/".to_string(), "a/".to_string()]);
}

#[test]
fn key_order_is_by_bytes() {
    assert!(key_less("a.mp4", "b.mp4"));
    assert!(!key_less("b.mp4", "a.mp4"));
    assert!(key_less("B.mp4", "a.mp4"));
    assert!(key_less("a", "ab"));
    assert!(!key_less("ab", "ab"));
    assert!(key_less("z", "é"));
}
