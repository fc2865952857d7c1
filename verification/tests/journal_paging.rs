use proxmox_yew_comp::journal::{
    display_record, line_text, split_legacy, split_structured, Content, JournalRecord,
    JournalRequest, JournalState, LineRecord, Position, RecordDisplay, ScrollAction, SplitError,
};

fn line(msg: &str, pid: Option<u64>) -> LineRecord {
    LineRecord { t: 0, id: "sshd".to_string(), pid, msg: msg.to_string(), p: 6 }
}

#[test]
fn legacy_pages_strip_cursors() {
    let (body, cursors) = split_legacy(vec!["c1".into(), "a".into(), "b".into(), "c2".into()]);
    assert_eq!(body, vec!["a", "b"]);
    assert_eq!(cursors, Some(("c1".to_string(), "c2".to_string())));
    let (body, cursors) = split_legacy(vec!["only".into()]);
    assert!(body.is_empty());
    assert_eq!(cursors, None);
    let (body, cursors) = split_legacy(vec!["c1".into(), "c2".into()]);
    assert!(body.is_empty());
    assert_eq!(cursors, None);
}

#[test]
fn structured_pages_need_cursors() {
    let ok = split_structured(vec![
        JournalRecord::Cursor("s".into()),
        JournalRecord::Host("h".into()),
        JournalRecord::Cursor("e".into()),
    ])
    .unwrap();
    assert_eq!(ok.0.len(), 1);
    assert_eq!(ok.1, Some(("s".to_string(), "e".to_string())));
    let e = split_structured(vec![JournalRecord::Host("h".into()), JournalRecord::Cursor("e".into())]);
    assert_eq!(e.err(), Some(SplitError::MissingStartCursor));
    let e = split_structured(vec![JournalRecord::Cursor("s".into()), JournalRecord::Reboot(1)]);
    assert_eq!(e.err(), Some(SplitError::MissingEndCursor));
    assert!(split_structured(vec![JournalRecord::Reboot(1)]).unwrap().0.is_empty());
    let only = split_structured(vec![JournalRecord::Cursor("s".into()), JournalRecord::Cursor("e".into())])
        .unwrap();
    assert!(only.0.is_empty());
    assert_eq!(only.1, None);
}

#[test]
fn first_load_goes_to_the_bottom() {
    let mut st = JournalState::new(false);
    match st.load() {
        Some((JournalRequest::Initial(500), 0)) => {}
        _ => panic!("expected the initial request"),
    }
    assert_eq!(st.position, Position::Bottom);
    assert!(st.loading);
    assert!(st.load().is_none());
}

#[test]
fn appended_pages_extend_the_buffer() {
    let mut st = JournalState::new(false);
    st.append(Content::Legacy(vec!["a".into()]));
    st.append(Content::Legacy(vec!["b".into()]));
    st.prepend(Content::Legacy(vec!["z".into()]));
    match &st.content {
        Content::Legacy(lines) => assert_eq!(lines, &vec!["z", "a", "b"]),
        _ => panic!("wrong mode"),
    }
}

#[test]
fn log_line_texts() {
    assert_eq!(line_text("Jan 1", Some("pve"), &line("hi", Some(42))), "Jan 1 pve sshd[42]: hi\n");
    assert_eq!(line_text("T", None, &line("a\nb", None)), "T sshd: a\n        b\n");
}

#[test]
fn host_records_set_the_host_of_later_lines() {
    let mut host = None;
    assert!(display_record(&JournalRecord::Host("pve1".into()), &mut host, "").is_none());
    assert_eq!(host.as_deref(), Some("pve1"));
    match display_record(&JournalRecord::Line(line("x", None)), &mut host, "T") {
        Some(RecordDisplay::Line(text, 6)) => assert_eq!(text, "T pve1 sshd: x\n"),
        _ => panic!("expected a line"),
    }
    assert!(matches!(
        display_record(&JournalRecord::Reboot(3), &mut host, ""),
        Some(RecordDisplay::RebootSeparator)
    ));
    assert!(display_record(&JournalRecord::Cursor("c".into()), &mut host, "").is_none());
}

#[test]
fn tail_view_polls_and_visibility() {
    let mut state = JournalState::new(false);
    assert!(state.load().is_some());
    assert!(state.loading);
    let step = state.empty_loaded();
    assert!(step.load_again && !step.redraw);
    assert_eq!(step.loading_change, (false, true));
    assert!(!state.loading);
    state.loading = true;
    state.cancel_poll();
    assert!(!state.loading);

    state.loading = true;
    assert_eq!(state.visibility_changed(true), (false, false));
    assert!(state.loading);
    assert_eq!(state.visibility_changed(false), (true, false));
    assert!(!state.loading);
    assert_eq!(state.visibility_changed(true), (true, true));

    state.old_scroll_height = 300;
    assert_eq!(state.scroll_after_render(800), Some(800));
    state.position = Position::Top;
    assert_eq!(state.scroll_after_render(800), Some(500));
    state.position = Position::Middle;
    assert_eq!(state.scroll_after_render(800), None);
    let step = state.empty_loaded();
    assert!(!step.load_again && !step.redraw);
    assert_eq!(step.loading_change, (false, false));
}

#[test]
fn loaded_pages_redraw_and_scrolls_do_not() {
    let mut st = JournalState::new(false);
    st.load();
    let step = st.page_loaded("s".into(), "e".into(), Content::Legacy(vec!["a".into()]), Position::Initial);
    assert!(step.redraw && step.load_again);
    assert_eq!(step.loading_change, (false, true));
    assert_eq!(st.cursors, Some(("s".to_string(), "e".to_string())));
    let step = st.scrolled(0, 100, 1000);
    assert!(!step.redraw);
    assert_eq!(step.action, ScrollAction::Load);
    assert_eq!(st.position, Position::Top);
    let step = st.scrolled(400, 100, 1000);
    assert_eq!(step.action, ScrollAction::Nothing);
    assert!(st.load_failed("boom".into()));
    assert_eq!(st.last_error.as_deref(), Some("boom"));
}
