use vstd::prelude::*;

verus! {

/// After writing to the clipboard itself the watcher ignores changes for
/// this many milliseconds.
pub const IGNORE_WINDOW_MS: u64 = 400;

/// Shortest and longest wait before the event hook is set up again.
pub const RETRY_MIN_MS: u64 = 300;

pub const RETRY_MAX_MS: u64 = 3000;

/// Pause of the polling watcher while a paste is in progress, and between
/// two polls.
pub const PASTE_POLL_PAUSE_MS: u64 = 120;

pub const POLL_INTERVAL_MS: u64 = 500;

/// The id a new session gets and the controller after starting it: the
/// counter moves on by one (wrapping at the top) and the returned id is the
/// old counter plus one (saturating).
pub open spec fn after_new_session(c: MonitorController) -> (u64, MonitorController) {
    if c.session_id == u64::MAX {
        (u64::MAX, MonitorController { session_id: 0, ..c })
    } else {
        ((c.session_id + 1) as u64, MonitorController { session_id: (c.session_id + 1) as u64, ..c })
    }
}

/// The watcher runs and `session_id` is its current session.
pub open spec fn session_active(c: MonitorController, session_id: u64) -> bool {
    c.is_running && c.session_id == session_id
}

/// State of the clipboard watcher.
pub struct MonitorController {
    pub is_running: bool,
    pub session_id: u64,
    pub ignore_until_ms: u64,
    pub paste_in_progress: bool,
}

impl MonitorController {
    /// Not running, no session yet, nothing ignored, no paste.
    pub fn new() -> (c: MonitorController)
        ensures
            c == (MonitorController { is_running: false, session_id: 0, ignore_until_ms: 0, paste_in_progress: false }),
    {
        MonitorController { is_running: false, session_id: 0, ignore_until_ms: 0, paste_in_progress: false }
    }

    /// Marks the watcher as running; whether it already was.
    pub fn check_and_mark_running(&mut self) -> (was_running: bool)
        ensures
            was_running == old(self).is_running,
            *final(self) == (MonitorController { is_running: true, ..*old(self) }),
    {
        let was = self.is_running;
        self.is_running = true;
        was
    }

    /// Starts a new session (see [`after_new_session`]).
    pub fn next_session_id(&mut self) -> (id: u64)
        ensures
            (id, *final(self)) == after_new_session(*old(self)),
    {
        let previous = self.session_id;
        if previous == u64::MAX {
            self.session_id = 0;
            u64::MAX
        } else {
            self.session_id = previous + 1;
            previous + 1
        }
    }

    /// The session `session_id` is the current one and the watcher runs.
    pub fn is_session_active(&self, session_id: u64) -> (r: bool)
        ensures
            r == session_active(*self, session_id),
    {
        self.is_running && self.session_id == session_id
    }

    /// Ignores clipboard changes until 400 ms after `now`.
    pub fn mark_ignore_changes_for_a_while(&mut self, now: u64)
        requires
            now <= u64::MAX - IGNORE_WINDOW_MS,
        ensures
            *final(self) == (MonitorController { ignore_until_ms: (now + IGNORE_WINDOW_MS) as u64, ..*old(self) }),
    {
        self.ignore_until_ms = now + IGNORE_WINDOW_MS;
    }

    /// Changes at `now` are ignored.
    pub fn should_ignore(&self, now: u64) -> (r: bool)
        ensures
            r == (now < self.ignore_until_ms),
    {
        now < self.ignore_until_ms
    }

    /// Sets whether a paste is in progress.
    pub fn set_paste_in_progress(&mut self, in_progress: bool)
        ensures
            *final(self) == (MonitorController { paste_in_progress: in_progress, ..*old(self) }),
    {
        self.paste_in_progress = in_progress;
    }

    /// Whether a paste is in progress.
    pub fn is_paste_in_progress(&self) -> (r: bool)
        ensures
            r == self.paste_in_progress,
    {
        self.paste_in_progress
    }

    /// A clipboard event at `now` is processed unless changes are being
    /// ignored or a paste is in progress.
    pub fn should_process_event(&self, now: u64) -> (r: bool)
        ensures
            r == (!(now < self.ignore_until_ms) && !self.paste_in_progress),
    {
        !self.should_ignore(now) && !self.is_paste_in_progress()
    }
}

/// What the polling watcher of a session does next.
#[derive(Clone, Copy, Debug, PartialEq, Eq, Structural)]
pub enum PollAction {
    /// The session is over: the loop ends.
    Stop,
    /// A paste is running: pause 120 ms and look again.
    PauseForPaste,
    /// Wait 500 ms, then handle the clipboard if the session is still on.
    WaitAndCheck,
}

/// The next step of the polling watcher of `session_id`.
pub fn poll_action(c: &MonitorController, session_id: u64) -> (a: PollAction)
    ensures
        !session_active(*c, session_id) ==> a == PollAction::Stop,
        session_active(*c, session_id) && c.paste_in_progress ==> a == PollAction::PauseForPaste,
        session_active(*c, session_id) && !c.paste_in_progress ==> a == PollAction::WaitAndCheck,
{
    if !c.is_session_active(session_id) {
        PollAction::Stop
    } else if c.is_paste_in_progress() {
        PollAction::PauseForPaste
    } else {
        PollAction::WaitAndCheck
    }
}

/// Marks a paste as running for as long as the guard is held.
pub struct PasteInProgressGuard {
    pub entered: bool,
}

impl PasteInProgressGuard {
    /// Marks a paste as in progress.
    pub fn enter(controller: &mut MonitorController) -> (g: PasteInProgressGuard)
        ensures
            *final(controller) == (MonitorController { paste_in_progress: true, ..*old(controller) }),
            g.entered,
    {
        controller.set_paste_in_progress(true);
        PasteInProgressGuard { entered: true }
    }

    /// Ends the paste.
    pub fn leave(self, controller: &mut MonitorController)
        ensures
            *final(controller) == (MonitorController { paste_in_progress: false, ..*old(controller) }),
    {
        controller.set_paste_in_progress(false);
    }
}

/// `c` with a paste marked as in progress.
pub open spec fn marked_for_paste(c: MonitorController) -> MonitorController {
    MonitorController { paste_in_progress: true, ..c }
}

/// Runs `f` once with a paste marked as in progress: `f` is handed the
/// controller with the mark set (so a watcher consulting it skips the change
/// the paste causes), its result is returned, and the mark is removed
/// afterwards whatever `f` returns.
pub fn with_paste_in_progress<T, E, F: FnOnce(&MonitorController) -> Result<T, E>>(
    controller: &mut MonitorController,
    f: F,
) -> (r: Result<T, E>)
    requires
        f.requires((&marked_for_paste(*old(controller)),)),
    ensures
        f.ensures((&marked_for_paste(*old(controller)),), r),
        *final(controller) == (MonitorController { paste_in_progress: false, ..*old(controller) }),
{
    let guard = PasteInProgressGuard::enter(controller);
    let r = f(&*controller);
    guard.leave(controller);
    r
}

/// Ignores the clipboard change the application is about to cause.
pub fn mark_ignore_next_change(controller: &mut MonitorController, now: u64)
    requires
        now <= u64::MAX - IGNORE_WINDOW_MS,
    ensures
        *final(controller) == (MonitorController { ignore_until_ms: (now + IGNORE_WINDOW_MS) as u64, ..*old(controller) }),
{
    controller.mark_ignore_changes_for_a_while(now);
}

/// The next wait before setting up the clipboard hook again: doubled
/// (saturating), at most 3000 ms.
pub fn next_retry_delay(delay_ms: u64) -> (r: u64)
    ensures
        r == if delay_ms > 1500 { RETRY_MAX_MS } else if delay_ms * 2 > RETRY_MAX_MS { RETRY_MAX_MS } else { (delay_ms * 2) as u64 },
{
    let doubled = if delay_ms > u64::MAX / 2 { u64::MAX } else { delay_ms * 2 };
    if doubled > RETRY_MAX_MS {
        RETRY_MAX_MS
    } else {
        doubled
    }
}

/// A new session supersedes the current one: once it starts, the session
/// that was current is no longer active (its watcher loop stops) and the
/// new one is active while the watcher runs. The counter is assumed not to
/// be at its maximum, where the returned id saturates and is never active.
pub proof fn new_session_supersedes(c: MonitorController)
    requires
        c.session_id < u64::MAX,
    ensures
        !session_active(after_new_session(c).1, c.session_id),
        session_active(after_new_session(c).1, after_new_session(c).0) == c.is_running,
{
}

} // verus!
