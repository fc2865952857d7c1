use proxmox_yew_comp::log_view::{LogPage, LogViewState, PAGE_LOAD_DELAY, TAIL_POLL_DELAY};

fn page(n: u64, total: u64) -> LogPage {
    LogPage { page: n, lines: vec![format!("line of page {n}")], total }
}

#[test]
fn tail_view_requests_the_last_page() {
    let mut st = LogViewState::new(true);
    assert_eq!(st.request_pages(0), vec![(0, PAGE_LOAD_DELAY)]);
    assert_eq!(st.request_pages(0), vec![]);
    assert!(st.page_loaded(page(0, 1200)));
    assert_eq!(st.total, Some(1200));
    assert_eq!(st.request_pages(0), vec![(2, PAGE_LOAD_DELAY)]);
    assert!(st.page_loaded(page(2, 1200)));
    assert_eq!(st.request_pages(0), vec![(2, TAIL_POLL_DELAY)]);
}

#[test]
fn scrolling_requests_surrounding_pages() {
    let mut st = LogViewState::new(false);
    st.viewport_resized(180);
    assert_eq!(st.viewport_lines, 10);
    st.total = Some(5000);
    let mut req = st.request_pages(1495);
    req.sort();
    assert_eq!(req, vec![(2, PAGE_LOAD_DELAY), (3, PAGE_LOAD_DELAY)]);
    assert!(!st.page_loaded(page(7, 5000)));
    assert!(st.page_loaded(page(2, 5000)));
    assert_eq!(st.page_index(2), Some(0));
    assert_eq!(st.page_index(3), None);
}

#[test]
fn tail_view_follows_scrolling_and_activity() {
    let mut st = LogViewState::new(false);
    st.scrolled(true, true);
    assert!(st.tail_view);
    st.scrolled(false, true);
    assert!(!st.tail_view);
    st.scrolled(true, false);
    assert!(!st.tail_view);
    let mut st = LogViewState::new(true);
    st.tail_tick(false);
    assert!(!st.tail_view);
}

#[test]
fn tail_scroll_offset() {
    let mut st = LogViewState::new(true);
    st.viewport_resized(180);
    assert_eq!(st.tail_scroll_top(), 0);
    st.total = Some(100);
    assert_eq!(st.tail_scroll_top(), (100 - 10 + 18 - 1) * 18);
    st.clear();
    assert_eq!(st.total, None);
}
