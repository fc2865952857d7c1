use proxmox_yew_comp::loadable::{
    view_state_eq, LoadEvent, LoadViewState, LoadableState, TimerAction,
};

#[test]
fn load_and_result_with_repeat() {
    let mut st: LoadableState<u8> = LoadableState::new();
    let step = st.update(LoadEvent::RepeatedLoad(3000));
    assert!(step.start_load);
    assert_eq!(step.timer, TimerAction::Cancel);
    assert!(st.is_loading());
    let step = st.update(LoadEvent::LoadResult(Ok(())));
    assert!(step.redraw);
    assert_eq!(step.timer, TimerAction::Start(3000));
    assert!(st.reload_scheduled);
    assert!(!st.is_loading());
    assert!(st.needs_visibility_observer(false));
    assert!(!st.needs_visibility_observer(true));
}

#[test]
fn first_error_opens_dialog_once() {
    let mut st: LoadableState<u8> = LoadableState::new();
    st.update(LoadEvent::Load);
    st.update(LoadEvent::LoadResult(Err("boom".to_string())));
    match &st.view_state {
        LoadViewState::Error(title, msg, reload) => {
            assert_eq!(title, "Load failed");
            assert_eq!(msg, "boom");
            assert!(!reload);
        }
        _ => panic!("expected the error dialog"),
    }
    st.update(LoadEvent::ChangeView(false, LoadViewState::Main));
    st.update(LoadEvent::Load);
    st.update(LoadEvent::LoadResult(Err("again".to_string())));
    assert!(matches!(st.view_state, LoadViewState::Main));
    assert_eq!(st.last_load_error.as_deref(), Some("again"));
    st.update(LoadEvent::Load);
    st.update(LoadEvent::LoadResult(Ok(())));
    assert_eq!(st.last_load_error, None);
}

#[test]
fn invisible_components_do_not_schedule_reloads() {
    let mut st: LoadableState<u8> = LoadableState::new();
    st.update(LoadEvent::Visible(false));
    st.update(LoadEvent::RepeatedLoad(1000));
    let step = st.update(LoadEvent::LoadResult(Ok(())));
    assert_eq!(step.timer, TimerAction::Cancel);
    let step = st.update(LoadEvent::Visible(true));
    assert!(step.start_load);
    assert!(st.is_loading());
    let step = st.update(LoadEvent::Visible(true));
    assert!(!step.start_load && !step.redraw);
}

#[test]
fn changing_to_the_same_view_does_nothing() {
    let mut st: LoadableState<u8> = LoadableState::new();
    let step = st.update(LoadEvent::ChangeView(true, LoadViewState::Dialog(1)));
    assert!(step.redraw && step.queue_load);
    let step = st.update(LoadEvent::ChangeView(true, LoadViewState::Dialog(1)));
    assert!(!step.redraw && !step.queue_load);
    assert!(view_state_eq(
        &LoadViewState::<u8>::TaskLog("t".into(), Some(5)),
        &LoadViewState::TaskLog("t".into(), Some(5))
    ));
    assert!(!view_state_eq(
        &LoadViewState::<u8>::TaskLog("t".into(), Some(5)),
        &LoadViewState::TaskLog("t".into(), None)
    ));
    let step = st.update(LoadEvent::Spawn);
    assert!(step.spawn && !step.redraw);
    let step = st.update(LoadEvent::ChildMessage);
    assert!(step.forward && step.redraw);
    let step = st.update(LoadEvent::DataChange);
    assert!(step.redraw);
}
