//! The load/reload state machine of loadable components.
//!
//! A loadable component loads its data asynchronously, may reload it periodically, pauses
//! the periodic reload while it is not visible, and shows the first error of a series of
//! failed loads in an error dialog. [`LoadableState::update`] decides, for each event, the
//! next state and what the surrounding component has to do.
use vstd::prelude::*;
use vstd::std_specs::cmp::PartialEqSpec;

verus! {

/// The title of the dialog that shows a failed load.
pub const LOAD_FAILED_TITLE: &'static str = "Load failed";

/// What the component shows besides its main view.
pub enum LoadViewState<V> {
    /// Only the main view.
    Main,
    /// The dialog of the component for this view state.
    Dialog(V),
    /// The progress of a task.
    TaskProgress(String),
    /// The log of a task, with its end time if it ended.
    TaskLog(String, Option<i64>),
    /// An error message: title, message, and whether to reload when it is closed.
    Error(String, String, bool),
}

/// Whether two view states are the same, taking dialogs as equal when the component's
/// equality says so.
pub open spec fn same_view<V: PartialEq>(a: LoadViewState<V>, b: LoadViewState<V>) -> bool {
    match (a, b) {
        (LoadViewState::Main, LoadViewState::Main) => true,
        (LoadViewState::Dialog(x), LoadViewState::Dialog(y)) => x.eq_spec(&y),
        (LoadViewState::TaskProgress(s), LoadViewState::TaskProgress(t)) => s@ == t@,
        (LoadViewState::TaskLog(s, e), LoadViewState::TaskLog(t, f)) => s@ == t@ && e == f,
        (LoadViewState::Error(a1, a2, a3), LoadViewState::Error(b1, b2, b3)) => a1@ == b1@ && a2@
            == b2@ && a3 == b3,
        _ => false,
    }
}

/// Compares two view states.
pub fn view_state_eq<V: PartialEq>(a: &LoadViewState<V>, b: &LoadViewState<V>) -> (r: bool)
    ensures
        V::obeys_eq_spec() ==> r == same_view(*a, *b),
{
    match a {
        LoadViewState::Main => match b {
            LoadViewState::Main => true,
            _ => false,
        },
        LoadViewState::Dialog(x) => match b {
            LoadViewState::Dialog(y) => x.eq(y),
            _ => false,
        },
        LoadViewState::TaskProgress(s) => match b {
            LoadViewState::TaskProgress(t) => s.eq(t),
            _ => false,
        },
        LoadViewState::TaskLog(s, e) => match b {
            LoadViewState::TaskLog(t, f) => {
                let same_end = match (e, f) {
                    (Some(x), Some(y)) => *x == *y,
                    (None, None) => true,
                    _ => false,
                };
                s.eq(t) && same_end
            },
            _ => false,
        },
        LoadViewState::Error(a1, a2, a3) => match b {
            LoadViewState::Error(b1, b2, b3) => a1.eq(b1) && a2.eq(b2) && *a3 == *b3,
            _ => false,
        },
    }
}

/// An event of a loadable component.
pub enum LoadEvent<V> {
    /// The data changed: redraw.
    DataChange,
    /// Load the data.
    Load,
    /// Reload the data every so many milliseconds (0: no repeated load).
    RepeatedLoad(u32),
    /// A load finished, with its error message if it failed.
    LoadResult(Result<(), String>),
    /// Change the view state, reloading if asked to.
    ChangeView(bool, LoadViewState<V>),
    /// A message for the component itself.
    ChildMessage,
    /// The component became visible or invisible.
    Visible(bool),
    /// Spawn a future in the component's pool.
    Spawn,
}

/// What happens to the pending reload timer.
#[derive(Clone, Copy, PartialEq, Eq, Structural, Debug)]
pub enum TimerAction {
    /// Leave it as it is.
    Keep,
    /// Drop it.
    Cancel,
    /// Replace it by one that fires after so many milliseconds.
    Start(u32),
}

/// What the component has to do after an event.
pub struct LoadStep {
    /// Whether to redraw.
    pub redraw: bool,
    /// Whether to start a load now.
    pub start_load: bool,
    /// Whether to queue a load event.
    pub queue_load: bool,
    /// Whether to pass the message on to the component.
    pub forward: bool,
    /// Whether to spawn the future.
    pub spawn: bool,
    /// What happens to the reload timer.
    pub timer: TimerAction,
}

/// The load state of a loadable component.
pub struct LoadableState<V> {
    /// Number of loads started and not finished.
    pub loading: usize,
    /// The error of the last load, if it failed.
    pub last_load_error: Option<String>,
    /// Milliseconds between repeated loads; 0 for none.
    pub repeat_timespan: u32,
    /// What is shown besides the main view.
    pub view_state: LoadViewState<V>,
    /// Whether a reload timer is pending.
    pub reload_scheduled: bool,
    /// Whether the component is visible.
    pub visible: bool,
}

/// A step that only redraws, or does nothing.
pub open spec fn plain_step(s: LoadStep, redraw: bool) -> bool {
    &&& s.redraw == redraw
    &&& !s.start_load
    &&& !s.queue_load
    &&& !s.forward
    &&& !s.spawn
    &&& s.timer == TimerAction::Keep
}

impl<V: PartialEq> LoadableState<V> {
    /// The state of a new component: nothing loading, no error, no repeated load, the main
    /// view, visible.
    pub fn new() -> (s: Self)
        ensures
            s.loading == 0,
            s.last_load_error is None,
            s.repeat_timespan == 0,
            s.view_state is Main,
            !s.reload_scheduled,
            s.visible,
    {
        LoadableState {
            loading: 0,
            last_load_error: None,
            repeat_timespan: 0,
            view_state: LoadViewState::Main,
            reload_scheduled: false,
            visible: true,
        }
    }

    /// Whether a load is running.
    pub fn is_loading(&self) -> (r: bool)
        ensures
            r == (self.loading > 0),
    {
        self.loading > 0
    }

    /// Whether the component needs a visibility observer: only while a reload is pending and
    /// none is installed.
    pub fn needs_visibility_observer(&self, has_observer: bool) -> (r: bool)
        ensures
            r == (!has_observer && self.reload_scheduled),
    {
        !has_observer && self.reload_scheduled
    }

    /// Starts a load.
    fn start_load(&mut self)
        requires
            old(self).loading < usize::MAX,
        ensures
            final(self).loading == old(self).loading + 1,
            final(self).last_load_error == old(self).last_load_error,
            final(self).repeat_timespan == old(self).repeat_timespan,
            final(self).view_state == old(self).view_state,
            final(self).reload_scheduled == old(self).reload_scheduled,
            final(self).visible == old(self).visible,
    {
        self.loading = self.loading + 1;
    }

    /// Handles an event: updates the state and says what the component has to do.
    ///
    /// A load result needs a running load, and a load needs room in the counter.
    pub fn update(&mut self, event: LoadEvent<V>) -> (step: LoadStep)
        requires
            event is LoadResult ==> old(self).loading > 0,
            event is Load ==> old(self).loading < usize::MAX,
        ensures
            match event {
                LoadEvent::Spawn => {
                    &&& *final(self) == *old(self)
                    &&& step.spawn && !step.redraw && !step.start_load && !step.queue_load
                        && !step.forward && step.timer == TimerAction::Keep
                },
                LoadEvent::DataChange => *final(self) == *old(self) && plain_step(step, true),
                LoadEvent::ChildMessage => {
                    &&& *final(self) == *old(self)
                    &&& step.forward && step.redraw && !step.start_load && !step.queue_load
                        && !step.spawn && step.timer == TimerAction::Keep
                },
                LoadEvent::Load => {
                    &&& final(self).loading == old(self).loading + 1
                    &&& final(self).last_load_error == old(self).last_load_error
                    &&& final(self).repeat_timespan == old(self).repeat_timespan
                    &&& final(self).view_state == old(self).view_state
                    &&& final(self).reload_scheduled == old(self).reload_scheduled
                    &&& final(self).visible == old(self).visible
                    &&& step.start_load && step.redraw && !step.queue_load && !step.forward
                        && !step.spawn && step.timer == TimerAction::Keep
                },
                LoadEvent::RepeatedLoad(t) => {
                    &&& final(self).repeat_timespan == t
                    &&& !final(self).reload_scheduled
                    &&& final(self).loading == if old(self).loading == 0 {
                        1
                    } else {
                        old(self).loading
                    }
                    &&& final(self).last_load_error == old(self).last_load_error
                    &&& final(self).view_state == old(self).view_state
                    &&& final(self).visible == old(self).visible
                    &&& step.start_load == (old(self).loading == 0)
                    &&& !step.redraw && !step.queue_load && !step.forward && !step.spawn
                    &&& step.timer == TimerAction::Cancel
                },
                LoadEvent::LoadResult(res) => {
                    let loading = old(self).loading - 1;
                    let first_error = old(self).last_load_error is None;
                    let timer = loading == 0 && old(self).repeat_timespan > 0
                        && old(self).visible;
                    &&& final(self).loading == loading
                    &&& final(self).repeat_timespan == old(self).repeat_timespan
                    &&& final(self).visible == old(self).visible
                    &&& final(self).reload_scheduled == timer
                    &&& match res {
                        Ok(()) => {
                            &&& final(self).last_load_error is None
                            &&& final(self).view_state == old(self).view_state
                        },
                        Err(msg) => {
                            &&& final(self).last_load_error == Some(msg)
                            &&& if first_error {
                                final(self).view_state matches LoadViewState::Error(
                                    title,
                                    text,
                                    reload,
                                ) && title@ == LOAD_FAILED_TITLE@ && text == msg && !reload
                            } else {
                                final(self).view_state == old(self).view_state
                            }
                        },
                    }
                    &&& step.redraw && !step.start_load && !step.queue_load && !step.forward
                        && !step.spawn
                    &&& step.timer == if timer {
                        TimerAction::Start(old(self).repeat_timespan)
                    } else {
                        TimerAction::Cancel
                    }
                },
                LoadEvent::ChangeView(reload, view) => {
                    let same = same_view(old(self).view_state, view);
                    V::obeys_eq_spec() ==> if same {
                        *final(self) == *old(self) && plain_step(step, false)
                    } else {
                        &&& final(self).view_state == view
                        &&& final(self).loading == old(self).loading
                        &&& final(self).last_load_error == old(self).last_load_error
                        &&& final(self).repeat_timespan == old(self).repeat_timespan
                        &&& final(self).reload_scheduled == old(self).reload_scheduled
                        &&& final(self).visible == old(self).visible
                        &&& step.redraw && step.queue_load == reload && !step.start_load
                            && !step.forward && !step.spawn && step.timer == TimerAction::Keep
                    }
                },
                LoadEvent::Visible(v) => {
                    if v == old(self).visible {
                        *final(self) == *old(self) && plain_step(step, false)
                    } else {
                        let start = old(self).loading == 0 && v;
                        &&& final(self).visible == v
                        &&& final(self).loading == if start {
                            1
                        } else {
                            old(self).loading
                        }
                        &&& final(self).last_load_error == old(self).last_load_error
                        &&& final(self).repeat_timespan == old(self).repeat_timespan
                        &&& final(self).view_state == old(self).view_state
                        &&& final(self).reload_scheduled == old(self).reload_scheduled
                        &&& step.start_load == start
                        &&& !step.redraw && !step.queue_load && !step.forward && !step.spawn
                        &&& step.timer == TimerAction::Keep
                    }
                },
            },
    {
        let mut step = LoadStep {
            redraw: false,
            start_load: false,
            queue_load: false,
            forward: false,
            spawn: false,
            timer: TimerAction::Keep,
        };
        match event {
            LoadEvent::Spawn => {
                step.spawn = true;
            },
            LoadEvent::DataChange => {
                step.redraw = true;
            },
            LoadEvent::ChildMessage => {
                step.forward = true;
                step.redraw = true;
            },
            LoadEvent::Load => {
                self.start_load();
                step.start_load = true;
                step.redraw = true;
            },
            LoadEvent::RepeatedLoad(timespan) => {
                self.repeat_timespan = timespan;
                self.reload_scheduled = false;
                step.timer = TimerAction::Cancel;
                if self.loading == 0 {
                    self.start_load();
                    step.start_load = true;
                }
            },
            LoadEvent::LoadResult(res) => {
                self.loading = self.loading - 1;
                match res {
                    Ok(()) => {
                        self.last_load_error = None;
                    },
                    Err(msg) => {
                        let first_error = self.last_load_error.is_none();
                        if first_error {
                            let title = LOAD_FAILED_TITLE.to_string();
                            self.view_state = LoadViewState::Error(title, msg.clone(), false);
                        }
                        self.last_load_error = Some(msg);
                    },
                }
                self.reload_scheduled = false;
                step.timer = TimerAction::Cancel;
                if self.loading == 0 && self.repeat_timespan > 0 && self.visible {
                    self.reload_scheduled = true;
                    step.timer = TimerAction::Start(self.repeat_timespan);
                }
                step.redraw = true;
            },
            LoadEvent::ChangeView(reload, view_state) => {
                if view_state_eq(&self.view_state, &view_state) {
                    return step;
                }
                step.queue_load = reload;
                self.view_state = view_state;
                step.redraw = true;
            },
            LoadEvent::Visible(visible) => {
                if self.visible == visible {
                    return step;
                }
                self.visible = visible;
                if self.loading == 0 && self.visible {
                    self.start_load();
                    step.start_load = true;
                }
            },
        }
        step
    }
}

} // verus!
