use video_gateway::pagination::{effective_page, effective_page_size, page_window, paginate, total_pages};

#[test]
fn absent_or_zero_page_size_is_eighteen() {
    assert_eq!(effective_page_size(None), 18);
    assert_eq!(effective_page_size(Some(0)), 18);
    assert_eq!(effective_page_size(Some(5)), 5);
}

#[test]
fn absent_page_is_first() {
    assert_eq!(effective_page(None), 1);
    assert_eq!(effective_page(Some(0)), 0);
    assert_eq!(effective_page(Some(4)), 4);
}

#[test]
fn page_count_rounds_up() {
    assert_eq!(total_pages(20, 18), 2);
    assert_eq!(total_pages(18, 18), 1);
    assert_eq!(total_pages(0, 18), 0);
    assert_eq!(total_pages(usize::MAX, 2), usize::MAX / 2 + 1);
}

#[test]
fn windows() {
    assert_eq!(page_window(20, 1, 18), (0, 18));
    assert_eq!(page_window(20, 2, 18), (18, 20));
    assert_eq!(page_window(20, 0, 18), (0, 18));
    assert_eq!(page_window(20, 3, 18), (0, 0));
    assert_eq!(page_window(20, usize::MAX, usize::MAX), (0, 0));
    assert_eq!(page_window(0, 1, 18), (0, 0));
}

#[test]
fn page_past_the_end() {
    let p = paginate(20, 3, 18);
    assert_eq!(page_window(20, 3, 18), (0, 0));
    assert!(!p.has_next_page);
    assert!(p.has_prev_page);
    assert_eq!(p.total_pages, 2);
}
