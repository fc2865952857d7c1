use proxmox_yew_comp::markdown::{assign_heading_ids, markdown_to_html, markdown_to_html_checked, HeadingEvent};
use proxmox_yew_comp::slug::{serialize_heading, Slugger};

#[test]
fn serialize_marked_parity() {
    assert_eq!(serialize_heading("Inline HTML"), "inline-html");
    assert_eq!(
        serialize_heading("Use the `printf()` function"),
        "use-the-printf-function",
    );
    assert_eq!(serialize_heading("Foo - Bar"), "foo---bar");
}

#[test]
fn slug_dedup_contract() {
    let mut s = Slugger::new();
    assert_eq!(s.slug("Foo"), "foo");
    assert_eq!(s.slug("Foo 1"), "foo-1");
    assert_eq!(s.slug("Foo"), "foo-2");

    let mut s = Slugger::new();
    assert_eq!(s.slug("!!!"), "");
    assert_eq!(s.slug("!!!"), "");

    let mut s = Slugger::new();
    s.reserve("bar");
    assert_eq!(s.slug("Bar"), "bar-1");
}

#[test]
fn serialize_heading_keeps_unicode_letters() {
    assert_eq!(serialize_heading("Ärger über Öl"), "ärger-über-öl");
    assert_eq!(serialize_heading(""), "");
}

#[test]
fn slug_repeats_count_up() {
    let mut s = Slugger::new();
    assert_eq!(s.slug("Intro"), "intro");
    assert_eq!(s.slug("Intro"), "intro-1");
    assert_eq!(s.slug("Intro"), "intro-2");
    assert_eq!(s.slug("Other"), "other");
}

#[test]
fn heading_ids_are_assigned_and_distinct() {
    let events = vec![
        HeadingEvent::Start { id: None },
        HeadingEvent::Text("Setup".to_string()),
        HeadingEvent::End,
        HeadingEvent::Other,
        HeadingEvent::Start { id: None },
        HeadingEvent::Text("Setup".to_string()),
        HeadingEvent::End,
        HeadingEvent::Start { id: Some("custom".to_string()) },
        HeadingEvent::Text("Ignored".to_string()),
        HeadingEvent::End,
    ];
    let ids = assign_heading_ids(&events);
    assert_eq!(ids.len(), events.len());
    assert_eq!(ids[0].as_deref(), Some("setup"));
    assert_eq!(ids[4].as_deref(), Some("setup-1"));
    assert_eq!(ids[7], None);
    for i in [1, 2, 3, 5, 6, 8, 9] {
        assert_eq!(ids[i], None);
    }
}

#[test]
fn markdown_to_html_gives_unique_heading_ids() {
    let html = markdown_to_html("# Intro {#setup}\n\n## Setup\n\ntext\n\n## Setup\n");
    assert!(html.contains("<h1 id=\"setup\">Intro</h1>"));
    assert!(html.contains("<h2 id=\"setup-1\">Setup</h2>"));
    assert!(html.contains("<h2 id=\"setup-2\">Setup</h2>"));
    assert!(html.contains("<p>text</p>"));
    assert_eq!(markdown_to_html_checked("plain"), Some("<p>plain</p>\n".to_string()));
}
